use vstd::prelude::*;
use crate::chars::{chars_equal_str, chars_of, string_of};
use crate::digits::{decimal_chars, decimal_chars_of};
use crate::editors::last_index_of;
use crate::markdown::{append, slice_of};
use crate::scan::ScanState;

verus! {

/// The status line under the project list for a scan state; `root` is the
/// folder being scanned.
pub open spec fn scan_status_text(state: ScanState, root: Seq<char>) -> Seq<char> {
    match state {
        ScanState::Idle => "Cached projects; explicit scan required."@,
        ScanState::Scanning => "Scanning "@ + root + "..."@,
        ScanState::Loaded { count } => "Loaded "@ + decimal_chars(count as nat) + " project(s)."@,
        ScanState::Empty => "Scan completed with no projects."@,
        ScanState::Error(_) => "Scan failed. Review the message above."@,
    }
}

/// The status line under the project list (see `scan_status_text`).
pub fn scan_status(state: &ScanState, root: &str) -> (status: String)
    ensures
        status@ == scan_status_text(*state, root@),
{
    match state {
        ScanState::Idle => string_of(&chars_of("Cached projects; explicit scan required.")),
        ScanState::Scanning => {
            let mut out = chars_of("Scanning ");
            append(&mut out, &chars_of(root));
            append(&mut out, &chars_of("..."));
            string_of(&out)
        },
        ScanState::Loaded { count } => {
            let mut out = chars_of("Loaded ");
            append(&mut out, &decimal_chars_of(*count as u64));
            append(&mut out, &chars_of(" project(s)."));
            string_of(&out)
        },
        ScanState::Empty => string_of(&chars_of("Scan completed with no projects.")),
        ScanState::Error(_) => string_of(&chars_of("Scan failed. Review the message above.")),
    }
}

/// The icon shown beside a file in the tree.
#[derive(Clone, Copy, Debug, PartialEq, Eq, Structural)]
pub enum FileIcon {
    Document,
    Image,
    Script,
    Settings,
    File,
}

/// The icon for a file name, from what follows its last `.`: documents,
/// images, scripts and configuration files have their own; anything else,
/// and a name without `.`, is a plain file.
pub open spec fn file_icon_spec(name: Seq<char>) -> FileIcon {
    match last_index_of(name, '.') {
        None => FileIcon::File,
        Some(dot) => {
            let e = name.subrange((dot + 1) as int, name.len() as int);
            if e == "md"@ || e == "txt"@ || e == "rst"@ {
                FileIcon::Document
            } else if e == "png"@ || e == "jpg"@ || e == "jpeg"@ || e == "gif"@ || e == "svg"@ || e == "ico"@
                || e == "webp"@ {
                FileIcon::Image
            } else if e == "sh"@ || e == "bash"@ || e == "ps1"@ || e == "bat"@ || e == "cmd"@ {
                FileIcon::Script
            } else if e == "toml"@ || e == "json"@ || e == "yaml"@ || e == "yml"@ || e == "ini"@ || e == "conf"@ {
                FileIcon::Settings
            } else {
                FileIcon::File
            }
        },
    }
}

/// The icon for a file name (see `file_icon_spec`).
pub fn file_icon(name: &str) -> (icon: FileIcon)
    ensures
        icon == file_icon_spec(name@),
{
    let n = chars_of(name);
    let len = n.len();
    let dot = match crate::editors::last_index(&n, '.') {
        Some(d) => d,
        None => return FileIcon::File,
    };
    proof {
        crate::editors::lemma_last_index_bounds(n@, '.');
    }
    let e = slice_of(&n, dot + 1, len);
    if chars_equal_str(&e, "md") || chars_equal_str(&e, "txt") || chars_equal_str(&e, "rst") {
        FileIcon::Document
    } else if chars_equal_str(&e, "png") || chars_equal_str(&e, "jpg") || chars_equal_str(&e, "jpeg")
        || chars_equal_str(&e, "gif") || chars_equal_str(&e, "svg") || chars_equal_str(&e, "ico")
        || chars_equal_str(&e, "webp") {
        FileIcon::Image
    } else if chars_equal_str(&e, "sh") || chars_equal_str(&e, "bash") || chars_equal_str(&e, "ps1")
        || chars_equal_str(&e, "bat") || chars_equal_str(&e, "cmd") {
        FileIcon::Script
    } else if chars_equal_str(&e, "toml") || chars_equal_str(&e, "json") || chars_equal_str(&e, "yaml")
        || chars_equal_str(&e, "yml") || chars_equal_str(&e, "ini") || chars_equal_str(&e, "conf") {
        FileIcon::Settings
    } else {
        FileIcon::File
    }
}

} // verus!
