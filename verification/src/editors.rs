use vstd::prelude::*;
use crate::chars::{chars_equal_str, chars_of, contains_chars, contains_seq, same_chars, string_of};
use crate::digits::{decimal_chars, decimal_chars_of};
use crate::markdown::{append, find_seq_from, lines_of, slice_of, split_lines};
use vstd::utf8::encode_utf8;
use vstd::relations::{sorted_by, total_ordering};
use vstd::seq_lib::{lemma_sorted_unique, to_multiset_insert, to_multiset_build};
use crate::project::{Project, ProjectSource, ProjectType, strings_view};
use crate::pathname::{plain_path, stem_of};
use crate::textops::{ascii_lower_seq, ascii_lowercase, find_char_from, find_from, lemma_find_from_bounds, split_words, trim, trimmed, words};

verus! {

/// The operating systems editors are discovered on.
#[derive(Clone, Copy, Debug, PartialEq, Eq, Structural)]
pub enum Platform {
    Windows,
    MacOs,
    Linux,
}

pub open spec fn platform_name_spec(platform: Platform) -> Seq<char> {
    match platform {
        Platform::Windows => "Windows"@,
        Platform::MacOs => "macOS"@,
        Platform::Linux => "Linux"@,
    }
}

/// The platform's name as JetBrains product metadata writes it.
pub fn platform_name(platform: Platform) -> (name: &'static str)
    ensures
        name@ == platform_name_spec(platform),
{
    match platform {
        Platform::Windows => "Windows",
        Platform::MacOs => "macOS",
        Platform::Linux => "Linux",
    }
}

/// The kinds of project an IDE is made for.
#[derive(Clone, Copy, Debug, PartialEq, Eq, Structural)]
pub enum EditorProjectKind {
    Rust,
    Web,
    Go,
    Python,
    Native,
    DotNet,
    Java,
    Php,
    Ruby,
    Swift,
    Dart,
}

/// How an editor opens projects: only local folders, as a VS Code family
/// editor (over SSH when `remote`), or as a JetBrains IDE reached over SSH
/// through the Gateway `transport`.
#[derive(Clone, Debug, PartialEq, Eq)]
pub enum EditorKind {
    Local,
    Code { remote: bool },
    JetBrains {
        product_code: String,
        remote: bool,
        transport: Option<String>,
        project_kinds: Vec<EditorProjectKind>,
    },
}

/// An editor found on this machine.
#[derive(Clone, Debug, PartialEq, Eq)]
pub struct DetectedEditor {
    pub id: String,
    pub label: String,
    pub executable: String,
    pub kind: EditorKind,
}

/// An editor kind as plain values.
pub enum EditorKindView {
    Local,
    Code { remote: bool },
    JetBrains {
        product_code: Seq<char>,
        remote: bool,
        transport: Option<Seq<char>>,
        project_kinds: Seq<EditorProjectKind>,
    },
}

/// An editor as plain values.
pub struct EditorView {
    pub id: Seq<char>,
    pub label: Seq<char>,
    pub executable: Seq<char>,
    pub kind: EditorKindView,
}

pub open spec fn option_text_view(text: Option<String>) -> Option<Seq<char>> {
    match text {
        Some(t) => Some(t@),
        None => None,
    }
}

impl View for EditorKind {
    type V = EditorKindView;

    open spec fn view(&self) -> EditorKindView {
        match self {
            EditorKind::Local => EditorKindView::Local,
            EditorKind::Code { remote } => EditorKindView::Code { remote: *remote },
            EditorKind::JetBrains { product_code, remote, transport, project_kinds } => EditorKindView::JetBrains {
                product_code: product_code@,
                remote: *remote,
                transport: option_text_view(*transport),
                project_kinds: project_kinds@,
            },
        }
    }
}

impl View for DetectedEditor {
    type V = EditorView;

    open spec fn view(&self) -> EditorView {
        EditorView { id: self.id@, label: self.label@, executable: self.executable@, kind: self.kind@ }
    }
}

/// Whether the editor can open a project on an SSH host.
pub open spec fn supports_remote_spec(kind: EditorKindView) -> bool {
    match kind {
        EditorKindView::Code { remote } => remote,
        EditorKindView::JetBrains { remote, transport, .. } => remote && transport is Some,
        EditorKindView::Local => false,
    }
}

/// The editor kind a project type stands for.
pub open spec fn primary_kind(project_type: ProjectType) -> Option<EditorProjectKind> {
    match project_type {
        ProjectType::Rust => Some(EditorProjectKind::Rust),
        ProjectType::Node => Some(EditorProjectKind::Web),
        ProjectType::Go => Some(EditorProjectKind::Go),
        ProjectType::Python => Some(EditorProjectKind::Python),
        ProjectType::Make | ProjectType::CMake | ProjectType::Assembly => Some(EditorProjectKind::Native),
        ProjectType::DotNet => Some(EditorProjectKind::DotNet),
        ProjectType::Java => Some(EditorProjectKind::Java),
        ProjectType::Unknown => None,
    }
}

/// The editor kind a build marker found in a project stands for.
pub open spec fn marker_kind(marker: Seq<char>) -> Option<EditorProjectKind> {
    if marker == "Cargo.toml"@ {
        Some(EditorProjectKind::Rust)
    } else if marker == "package.json"@ || marker == "*.html"@ || marker == "*.js"@ || marker == "*.css"@
        || marker == "*.ts"@ || marker == "*.tsx"@ || marker == "*.jsx"@ || marker == "*.vue"@ {
        Some(EditorProjectKind::Web)
    } else if marker == "go.mod"@ {
        Some(EditorProjectKind::Go)
    } else if marker == "pyproject.toml"@ || marker == "requirements.txt"@ || marker == "*.py"@ {
        Some(EditorProjectKind::Python)
    } else if marker == "Makefile"@ || marker == "CMakeLists.txt"@ || marker == "*.asm"@ {
        Some(EditorProjectKind::Native)
    } else if marker == "*.sln"@ {
        Some(EditorProjectKind::DotNet)
    } else if marker == "build.gradle"@ || marker == "pom.xml"@ || marker == "*.kt"@ {
        Some(EditorProjectKind::Java)
    } else if marker == "*.php"@ {
        Some(EditorProjectKind::Php)
    } else if marker == "*.rb"@ {
        Some(EditorProjectKind::Ruby)
    } else if marker == "*.swift"@ {
        Some(EditorProjectKind::Swift)
    } else if marker == "*.dart"@ {
        Some(EditorProjectKind::Dart)
    } else {
        None
    }
}

/// The kinds named by the markers, each added once, after `start`.
pub open spec fn kinds_with_markers(start: Seq<EditorProjectKind>, markers: Seq<Seq<char>>) -> Seq<EditorProjectKind>
    decreases markers.len(),
{
    if markers.len() == 0 {
        start
    } else {
        let earlier = kinds_with_markers(start, markers.drop_last());
        match marker_kind(markers.last()) {
            Some(k) => if earlier.contains(k) { earlier } else { earlier.push(k) },
            None => earlier,
        }
    }
}

/// The kinds of a project: the one its type stands for, then those its
/// markers name, each once.
pub open spec fn effective_kinds(project_type: ProjectType, markers: Seq<Seq<char>>) -> Seq<EditorProjectKind> {
    kinds_with_markers(
        match primary_kind(project_type) {
            Some(k) => seq![k],
            None => Seq::empty(),
        },
        markers,
    )
}

/// Whether the editor is offered for a project: any editor but a JetBrains
/// IDE, and an IDE whose kinds include one of the project's.
pub open spec fn supports_project_spec(kind: EditorKindView, project_type: ProjectType, markers: Seq<Seq<char>>) -> bool {
    match kind {
        EditorKindView::JetBrains { project_kinds, .. } => project_kinds.len() > 0 && exists|k: EditorProjectKind|
            effective_kinds(project_type, markers).contains(k) && project_kinds.contains(k),
        _ => true,
    }
}

fn marker_kind_of(marker: &str) -> (kind: Option<EditorProjectKind>)
    ensures
        kind == marker_kind(marker@),
{
    let m = chars_of(marker);
    if chars_equal_str(&m, "Cargo.toml") {
        Some(EditorProjectKind::Rust)
    } else if chars_equal_str(&m, "package.json") || chars_equal_str(&m, "*.html") || chars_equal_str(&m, "*.js")
        || chars_equal_str(&m, "*.css") || chars_equal_str(&m, "*.ts") || chars_equal_str(&m, "*.tsx")
        || chars_equal_str(&m, "*.jsx") || chars_equal_str(&m, "*.vue") {
        Some(EditorProjectKind::Web)
    } else if chars_equal_str(&m, "go.mod") {
        Some(EditorProjectKind::Go)
    } else if chars_equal_str(&m, "pyproject.toml") || chars_equal_str(&m, "requirements.txt") || chars_equal_str(
        &m,
        "*.py",
    ) {
        Some(EditorProjectKind::Python)
    } else if chars_equal_str(&m, "Makefile") || chars_equal_str(&m, "CMakeLists.txt") || chars_equal_str(&m, "*.asm") {
        Some(EditorProjectKind::Native)
    } else if chars_equal_str(&m, "*.sln") {
        Some(EditorProjectKind::DotNet)
    } else if chars_equal_str(&m, "build.gradle") || chars_equal_str(&m, "pom.xml") || chars_equal_str(&m, "*.kt") {
        Some(EditorProjectKind::Java)
    } else if chars_equal_str(&m, "*.php") {
        Some(EditorProjectKind::Php)
    } else if chars_equal_str(&m, "*.rb") {
        Some(EditorProjectKind::Ruby)
    } else if chars_equal_str(&m, "*.swift") {
        Some(EditorProjectKind::Swift)
    } else if chars_equal_str(&m, "*.dart") {
        Some(EditorProjectKind::Dart)
    } else {
        None
    }
}

fn contains_kind(kinds: &Vec<EditorProjectKind>, kind: EditorProjectKind) -> (found: bool)
    ensures
        found == kinds@.contains(kind),
{
    let mut i: usize = 0;
    while i < kinds.len()
        invariant
            i <= kinds@.len(),
            forall|j: int| 0 <= j < i ==> kinds@[j] != kind,
        decreases kinds@.len() - i,
    {
        if kinds[i] == kind {
            assert(kinds@[i as int] == kind);
            return true;
        }
        i = i + 1;
    }
    false
}

/// The editor kinds a project calls for (see `effective_kinds`).
pub fn effective_project_kinds(project: &Project) -> (kinds: Vec<EditorProjectKind>)
    ensures
        kinds@ == effective_kinds(project.project_type, strings_view(project.markers_found@)),
{
    let mut kinds: Vec<EditorProjectKind> = Vec::new();
    let primary = match project.project_type {
        ProjectType::Rust => Some(EditorProjectKind::Rust),
        ProjectType::Node => Some(EditorProjectKind::Web),
        ProjectType::Go => Some(EditorProjectKind::Go),
        ProjectType::Python => Some(EditorProjectKind::Python),
        ProjectType::Make | ProjectType::CMake | ProjectType::Assembly => Some(EditorProjectKind::Native),
        ProjectType::DotNet => Some(EditorProjectKind::DotNet),
        ProjectType::Java => Some(EditorProjectKind::Java),
        ProjectType::Unknown => None,
    };
    match primary {
        Some(p) => kinds.push(p),
        None => {},
    }
    let ghost start = kinds@;
    let ghost markers = strings_view(project.markers_found@);
    let mut i: usize = 0;
    assert(markers.subrange(0, 0) =~= Seq::<Seq<char>>::empty());
    while i < project.markers_found.len()
        invariant
            markers == strings_view(project.markers_found@),
            start == match primary_kind(project.project_type) {
                Some(k) => seq![k],
                None => Seq::<EditorProjectKind>::empty(),
            },
            i <= markers.len(),
            kinds@ == kinds_with_markers(start, markers.subrange(0, i as int)),
        decreases markers.len() - i,
    {
        let kind = marker_kind_of(project.markers_found[i].as_str());
        proof {
            let next = markers.subrange(0, i + 1);
            assert(next.drop_last() =~= markers.subrange(0, i as int));
            assert(next.last() == project.markers_found@[i as int]@);
        }
        match kind {
            Some(k) => {
                if !contains_kind(&kinds, k) {
                    kinds.push(k);
                }
            },
            None => {},
        }
        i = i + 1;
    }
    assert(markers.subrange(0, markers.len() as int) =~= markers);
    kinds
}

impl DetectedEditor {
    /// The name shown for the editor.
    pub fn label(&self) -> (label: &str)
        ensures
            label@ == self.label@,
    {
        self.label.as_str()
    }

    /// Whether the editor can open projects on SSH hosts: a VS Code family
    /// editor that declares remote support, or a JetBrains IDE with a thin
    /// client and a Gateway transport.
    pub fn supports_remote(&self) -> (remote: bool)
        ensures
            remote == supports_remote_spec(self.kind@),
    {
        match &self.kind {
            EditorKind::Code { remote } => *remote,
            EditorKind::JetBrains { remote, transport, .. } => *remote && transport.is_some(),
            EditorKind::Local => false,
        }
    }

    /// Whether the editor is offered for the project (see
    /// `supports_project_spec`).
    pub fn supports_project(&self, project: &Project) -> (supported: bool)
        ensures
            supported == supports_project_spec(
                self.kind@,
                project.project_type,
                strings_view(project.markers_found@),
            ),
    {
        match &self.kind {
            EditorKind::JetBrains { project_kinds, .. } => {
                if project_kinds.len() == 0 {
                    return false;
                }
                let kinds = effective_project_kinds(project);
                let mut i: usize = 0;
                while i < kinds.len()
                    invariant
                        kinds@ == effective_kinds(project.project_type, strings_view(project.markers_found@)),
                        project_kinds@.len() > 0,
                        self.kind@ is JetBrains && self.kind@->project_kinds == project_kinds@,
                        i <= kinds@.len(),
                        forall|j: int| 0 <= j < i ==> !project_kinds@.contains(#[trigger] kinds@[j]),
                    decreases kinds@.len() - i,
                {
                    if contains_kind(project_kinds, kinds[i]) {
                        let ghost k = kinds@[i as int];
                        assert(kinds@.contains(k));
                        assert(effective_kinds(project.project_type, strings_view(project.markers_found@)).contains(k)
                            && project_kinds@.contains(k));
                        return true;
                    }
                    i = i + 1;
                }
                assert forall|k: EditorProjectKind| kinds@.contains(k) implies !project_kinds@.contains(k) by {
                    let j = choose|j: int| 0 <= j < kinds@.len() && kinds@[j] == k;
                }
                false
            },
            _ => true,
        }
    }
}

/// VS Code family product metadata (`product.json`), the fields that
/// editor discovery reads.
#[derive(Clone, Debug, PartialEq, Eq)]
pub struct CodeProduct {
    pub application_name: Option<String>,
    pub name_long: Option<String>,
    pub name_short: Option<String>,
    pub remote_name: Option<String>,
    pub server_application_name: Option<String>,
    pub tunnel_application_name: Option<String>,
}

/// Whether VS Code family product metadata declares remote development
/// support.
pub fn code_supports_remote(product: &CodeProduct) -> (remote: bool)
    ensures
        remote == (product.remote_name is Some || product.server_application_name is Some
            || product.tunnel_application_name is Some),
{
    product.remote_name.is_some() || product.server_application_name.is_some()
        || product.tunnel_application_name.is_some()
}

/// A module entry of JetBrains product metadata: a name, or an object with
/// a name.
#[derive(Clone, Debug, PartialEq, Eq)]
pub enum JetBrainsModule {
    Name(String),
    Entry { name: String },
}

impl JetBrainsModule {
    pub open spec fn spec_name(self) -> Seq<char> {
        match self {
            JetBrainsModule::Name(name) => name@,
            JetBrainsModule::Entry { name } => name@,
        }
    }

    /// The module's name.
    pub fn name(&self) -> (name: &str)
        ensures
            name@ == self.spec_name(),
    {
        match self {
            JetBrainsModule::Name(name) => name.as_str(),
            JetBrainsModule::Entry { name } => name.as_str(),
        }
    }
}

/// Some module of the list is called `name`.
pub open spec fn has_module(modules: Seq<JetBrainsModule>, name: Seq<char>) -> bool {
    exists|i: int| 0 <= i < modules.len() && (#[trigger] modules[i]).spec_name() == name
}

/// The project kinds a JetBrains IDE is for, from its modules: the module of
/// a product (RustRover, WebStorm, CLion, Rider, GoLand, PyCharm, PhpStorm,
/// RubyMine, AppCode, or their language modules) decides alone, checked in
/// that order; otherwise the Java, JavaScript and Dart modules each add
/// their kind.
pub open spec fn jetbrains_kinds(modules: Seq<JetBrainsModule>) -> Seq<EditorProjectKind> {
    let has = |name: Seq<char>| has_module(modules, name);
    if has("com.intellij.modules.rustrover"@) {
        seq![EditorProjectKind::Rust]
    } else if has("com.intellij.modules.webstorm"@) {
        seq![EditorProjectKind::Web]
    } else if has("com.intellij.modules.clion"@) {
        seq![EditorProjectKind::Native]
    } else if has("com.intellij.modules.rider"@) {
        seq![EditorProjectKind::DotNet]
    } else if has("com.intellij.modules.goland"@) || has("com.intellij.modules.go"@) {
        seq![EditorProjectKind::Go]
    } else if has("com.intellij.modules.pycharm"@) || has("com.intellij.modules.python"@) {
        seq![EditorProjectKind::Python]
    } else if has("com.intellij.modules.phpstorm"@) || has("com.intellij.modules.php"@) {
        seq![EditorProjectKind::Php]
    } else if has("com.intellij.modules.rubymine"@) || has("com.intellij.modules.ruby"@) {
        seq![EditorProjectKind::Ruby]
    } else if has("com.intellij.modules.appcode"@) || has("com.intellij.modules.swift"@) {
        seq![EditorProjectKind::Swift]
    } else {
        (if has("com.intellij.modules.java"@) { seq![EditorProjectKind::Java] } else { Seq::empty() })
            + (if has("com.intellij.modules.javascript"@) { seq![EditorProjectKind::Web] } else { Seq::empty() })
            + (if has("com.intellij.modules.dart"@) { seq![EditorProjectKind::Dart] } else { Seq::empty() })
    }
}

fn has_module_named(modules: &[JetBrainsModule], name: &str) -> (found: bool)
    ensures
        found == has_module(modules@, name@),
{
    let mut i: usize = 0;
    while i < modules.len()
        invariant
            i <= modules@.len(),
            forall|j: int| 0 <= j < i ==> (#[trigger] modules@[j]).spec_name() != name@,
        decreases modules@.len() - i,
    {
        let same = chars_equal_str(&chars_of(modules[i].name()), name);
        if same {
            return true;
        }
        i = i + 1;
    }
    false
}

/// The project kinds of a JetBrains IDE (see `jetbrains_kinds`).
pub fn jetbrains_project_kinds(modules: &[JetBrainsModule]) -> (kinds: Vec<EditorProjectKind>)
    ensures
        kinds@ == jetbrains_kinds(modules@),
{
    if has_module_named(modules, "com.intellij.modules.rustrover") {
        return vec![EditorProjectKind::Rust];
    }
    if has_module_named(modules, "com.intellij.modules.webstorm") {
        return vec![EditorProjectKind::Web];
    }
    if has_module_named(modules, "com.intellij.modules.clion") {
        return vec![EditorProjectKind::Native];
    }
    if has_module_named(modules, "com.intellij.modules.rider") {
        return vec![EditorProjectKind::DotNet];
    }
    if has_module_named(modules, "com.intellij.modules.goland") || has_module_named(modules, "com.intellij.modules.go") {
        return vec![EditorProjectKind::Go];
    }
    if has_module_named(modules, "com.intellij.modules.pycharm") || has_module_named(
        modules,
        "com.intellij.modules.python",
    ) {
        return vec![EditorProjectKind::Python];
    }
    if has_module_named(modules, "com.intellij.modules.phpstorm") || has_module_named(
        modules,
        "com.intellij.modules.php",
    ) {
        return vec![EditorProjectKind::Php];
    }
    if has_module_named(modules, "com.intellij.modules.rubymine") || has_module_named(
        modules,
        "com.intellij.modules.ruby",
    ) {
        return vec![EditorProjectKind::Ruby];
    }
    if has_module_named(modules, "com.intellij.modules.appcode") || has_module_named(
        modules,
        "com.intellij.modules.swift",
    ) {
        return vec![EditorProjectKind::Swift];
    }
    let mut kinds: Vec<EditorProjectKind> = Vec::new();
    let java = has_module_named(modules, "com.intellij.modules.java");
    if java {
        kinds.push(EditorProjectKind::Java);
    }
    let web = has_module_named(modules, "com.intellij.modules.javascript");
    if web {
        kinds.push(EditorProjectKind::Web);
    }
    let dart = has_module_named(modules, "com.intellij.modules.dart");
    if dart {
        kinds.push(EditorProjectKind::Dart);
    }
    assert(kinds@ =~= (if java { seq![EditorProjectKind::Java] } else { Seq::empty() }) + (if web {
        seq![EditorProjectKind::Web]
    } else {
        Seq::empty()
    }) + (if dart { seq![EditorProjectKind::Dart] } else { Seq::empty() }));
    kinds
}

/// The path with `\` turned into `/`.
pub open spec fn forward_slashes(path: Seq<char>) -> Seq<char> {
    path.map_values(|c: char| if c == '\\' { '/' } else { c })
}

/// A project path as an SSH host sees it: forward slashes, and absolute.
pub open spec fn normalized_remote_path_spec(path: Seq<char>) -> Seq<char> {
    let p = forward_slashes(path);
    if p.len() > 0 && p[0] == '/' {
        p
    } else {
        seq!['/'] + p
    }
}

fn forward_slashes_of(path: &Vec<char>) -> (p: Vec<char>)
    ensures
        p@ == forward_slashes(path@),
{
    let mut p: Vec<char> = Vec::new();
    let mut i: usize = 0;
    while i < path.len()
        invariant
            i <= path@.len(),
            p@ == forward_slashes(path@.subrange(0, i as int)),
        decreases path@.len() - i,
    {
        let c = path[i];
        p.push(if c == '\\' { '/' } else { c });
        i = i + 1;
        assert(p@ =~= forward_slashes(path@.subrange(0, i as int)));
    }
    assert(path@.subrange(0, path@.len() as int) =~= path@);
    p
}

/// A project path as an SSH host sees it (see `normalized_remote_path_spec`).
pub fn normalized_remote_path(path: &str) -> (normalized: String)
    ensures
        normalized@ == normalized_remote_path_spec(path@),
{
    let p = forward_slashes_of(&chars_of(path));
    if p.len() > 0 && p[0] == '/' {
        string_of(&p)
    } else {
        let mut out: Vec<char> = Vec::new();
        out.push('/');
        append(&mut out, &p);
        assert(out@ =~= seq!['/'] + p@);
        string_of(&out)
    }
}

/// An editor's identity: its executable's path with forward slashes, in
/// lower case on Windows.
pub open spec fn editor_id_spec(path: Seq<char>, platform: Platform) -> Seq<char> {
    if platform == Platform::Windows {
        ascii_lower_seq(forward_slashes(path))
    } else {
        forward_slashes(path)
    }
}

/// An editor's identity (see `editor_id_spec`).
pub fn editor_id(path: &str, platform: Platform) -> (id: String)
    ensures
        id@ == editor_id_spec(path@, platform),
{
    let p = forward_slashes_of(&chars_of(path));
    if platform == Platform::Windows {
        string_of(&ascii_lowercase(&p))
    } else {
        string_of(&p)
    }
}

pub open spec fn is_ascii_digit(c: char) -> bool {
    '0' <= c <= '9'
}

pub open spec fn all_digits(s: Seq<char>) -> bool {
    forall|i: int| 0 <= i < s.len() ==> is_ascii_digit(#[trigger] s[i])
}

/// The number that decimal digits write.
pub open spec fn digits_value(s: Seq<char>) -> int
    decreases s.len(),
{
    if s.len() == 0 {
        0
    } else {
        digits_value(s.drop_last()) * 10 + (s.last() as int - '0' as int)
    }
}

/// A port number as `u16::from_str` reads it: an optional `+`, then one or
/// more decimal digits whose value fits in 16 bits.
pub open spec fn parse_port_spec(s: Seq<char>) -> Option<u16> {
    let digits = if s.len() > 0 && s[0] == '+' { s.drop_first() } else { s };
    if digits.len() > 0 && all_digits(digits) && digits_value(digits) <= 65535 {
        Some(digits_value(digits) as u16)
    } else {
        None
    }
}

/// The port a text names, or the SSH default 22.
pub open spec fn port_or_default(s: Seq<char>) -> u16 {
    match parse_port_spec(s) {
        Some(p) => p,
        None => 22,
    }
}

proof fn lemma_digits_value_grows(s: Seq<char>, k: int)
    requires
        0 <= k <= s.len(),
        all_digits(s),
    ensures
        digits_value(s.subrange(0, k)) <= digits_value(s),
        0 <= digits_value(s.subrange(0, k)),
    decreases s.len(),
{
    if k < s.len() {
        assert(s.drop_last().subrange(0, k) =~= s.subrange(0, k));
        assert forall|i: int| 0 <= i < s.drop_last().len() implies is_ascii_digit(#[trigger] s.drop_last()[i]) by {
            assert(s.drop_last()[i] == s[i]);
        }
        lemma_digits_value_grows(s.drop_last(), k);
        assert(is_ascii_digit(s[s.len() - 1]));
    } else {
        assert(s.subrange(0, k) =~= s);
        if s.len() > 0 {
            assert forall|i: int| 0 <= i < s.drop_last().len() implies is_ascii_digit(#[trigger] s.drop_last()[i]) by {
                assert(s.drop_last()[i] == s[i]);
            }
            lemma_digits_value_grows(s.drop_last(), s.len() - 1);
            assert(s.drop_last().subrange(0, s.len() - 1) =~= s.drop_last());
            assert(is_ascii_digit(s[s.len() - 1]));
        }
    }
}

/// Reads a port number (see `parse_port_spec`).
fn parse_port(s: &Vec<char>) -> (port: Option<u16>)
    ensures
        port == parse_port_spec(s@),
{
    let start: usize = if s.len() > 0 && s[0] == '+' { 1 } else { 0 };
    let ghost digits = if s@.len() > 0 && s@[0] == '+' { s@.drop_first() } else { s@ };
    assert(digits =~= s@.subrange(start as int, s@.len() as int));
    if start == s.len() {
        return None;
    }
    let mut value: u32 = 0;
    let mut i: usize = start;
    assert(digits.subrange(0, 0) =~= Seq::<char>::empty());
    while i < s.len()
        invariant
            start <= i <= s@.len(),
            digits == (if s@.len() > 0 && s@[0] == '+' { s@.drop_first() } else { s@ }),
            digits =~= s@.subrange(start as int, s@.len() as int),
            value == digits_value(digits.subrange(0, i - start)),
            value <= 65535,
            forall|j: int| start <= j < i ==> is_ascii_digit(#[trigger] s@[j]),
        decreases s@.len() - i,
    {
        let c = s[i];
        if !('0' <= c && c <= '9') {
            assert(!all_digits(digits)) by {
                assert(digits[i - start] == c);
            }
            return None;
        }
        let ghost prefix = digits.subrange(0, i + 1 - start);
        assert(prefix.drop_last() =~= digits.subrange(0, i - start));
        assert(prefix.last() == c);
        value = value * 10 + ((c as u32) - ('0' as u32));
        i = i + 1;
        if value > 65535 {
            proof {
                if all_digits(digits) {
                    lemma_digits_value_grows(digits, i - start);
                }
            }
            return None;
        }
    }
    assert(digits.subrange(0, digits.len() as int) =~= digits);
    assert(all_digits(digits)) by {
        assert forall|j: int| 0 <= j < digits.len() implies is_ascii_digit(#[trigger] digits[j]) by {
            assert(digits[j] == s@[j + start]);
        }
    }
    Some(value as u16)
}

/// The position of the last `c` in the text.
pub open spec fn last_index_of(s: Seq<char>, c: char) -> Option<nat>
    decreases s.len(),
{
    if s.len() == 0 {
        None
    } else if s.last() == c {
        Some((s.len() - 1) as nat)
    } else {
        last_index_of(s.drop_last(), c)
    }
}

pub proof fn lemma_last_index_bounds(s: Seq<char>, c: char)
    ensures
        last_index_of(s, c) matches Some(i) ==> i < s.len() && s[i as int] == c,
    decreases s.len(),
{
    if s.len() > 0 && s.last() != c {
        lemma_last_index_bounds(s.drop_last(), c);
    }
}

pub fn last_index(s: &Vec<char>, c: char) -> (found: Option<usize>)
    ensures
        match found {
            Some(i) => last_index_of(s@, c) == Some(i as nat),
            None => last_index_of(s@, c) is None,
        },
{
    let mut k: usize = s.len();
    assert(s@.subrange(0, s@.len() as int) =~= s@);
    while k > 0
        invariant
            k <= s@.len(),
            last_index_of(s@.subrange(0, k as int), c) == last_index_of(s@, c),
        decreases k,
    {
        let ghost prefix = s@.subrange(0, k as int);
        assert(prefix.drop_last() =~= s@.subrange(0, k - 1));
        if s[k - 1] == c {
            return Some(k - 1);
        }
        k = k - 1;
    }
    None
}

/// An SSH address split into host and port: `[host]:port` or `[host]`
/// for IPv6, else `host:port` when all that follows the last `:` is
/// digits; the port is 22 when it is missing or does not read.
pub open spec fn split_host_port_spec(address: Seq<char>) -> (Seq<char>, u16) {
    if address.len() > 0 && address[0] == '[' {
        let bracketed = address.drop_first();
        match find_seq_from(bracketed, seq![']', ':'], 0) {
            Some(i) => (
                bracketed.subrange(0, i as int),
                port_or_default(bracketed.subrange((i + 2) as int, bracketed.len() as int)),
            ),
            None => (
                if bracketed.len() > 0 && bracketed.last() == ']' { bracketed.drop_last() } else { bracketed },
                22,
            ),
        }
    } else {
        match last_index_of(address, ':') {
            Some(i) => if all_digits(address.subrange((i + 1) as int, address.len() as int)) {
                (address.subrange(0, i as int), port_or_default(address.subrange((i + 1) as int, address.len() as int)))
            } else {
                (address, 22)
            },
            None => (address, 22),
        }
    }
}

fn split_host_port_of(address: &Vec<char>) -> (split: (Vec<char>, u16))
    ensures
        (split.0@, split.1) == split_host_port_spec(address@),
{
    let n = address.len();
    if n > 0 && address[0] == '[' {
        let bracketed = slice_of(address, 1, n);
        assert(bracketed@ =~= address@.drop_first());
        let mut marker: Vec<char> = Vec::new();
        marker.push(']');
        marker.push(':');
        assert(marker@ =~= seq![']', ':']);
        match crate::markdown::find_seq(&bracketed, &marker) {
            Some(i) => {
                proof {
                    crate::markdown::lemma_find_seq_bounds(bracketed@, marker@, 0);
                }
                let host = slice_of(&bracketed, 0, i);
                let port = parse_port(&slice_of(&bracketed, i + 2, bracketed.len()));
                let p: u16 = match port {
                    Some(p) => p,
                    None => 22,
                };
                (host, p)
            },
            None => {
                let bl = bracketed.len();
                if bl > 0 && bracketed[bl - 1] == ']' {
                    let host = slice_of(&bracketed, 0, bl - 1);
                    assert(host@ =~= bracketed@.drop_last());
                    (host, 22)
                } else {
                    (bracketed, 22)
                }
            },
        }
    } else {
        match last_index(address, ':') {
            Some(i) => {
                proof {
                    lemma_last_index_bounds(address@, ':');
                }
                let port_text = slice_of(address, i + 1, n);
                let mut all: bool = true;
                let mut k: usize = 0;
                while k < port_text.len()
                    invariant
                        k <= port_text@.len(),
                        all == (forall|j: int| 0 <= j < k ==> is_ascii_digit(#[trigger] port_text@[j])),
                    decreases port_text@.len() - k,
                {
                    let c = port_text[k];
                    if !('0' <= c && c <= '9') {
                        all = false;
                    }
                    k = k + 1;
                }
                if all {
                    let host = slice_of(address, 0, i);
                    let p: u16 = match parse_port(&port_text) {
                        Some(p) => p,
                        None => 22,
                    };
                    (host, p)
                } else {
                    (slice_of(address, 0, n), 22)
                }
            },
            None => (slice_of(address, 0, n), 22),
        }
    }
}

/// Splits an SSH address into host and port (see `split_host_port_spec`).
pub fn split_host_port(address: &str) -> (split: (String, u16))
    ensures
        (split.0@, split.1) == split_host_port_spec(address@),
{
    let (host, port) = split_host_port_of(&chars_of(address));
    (string_of(&host), port)
}

/// A byte that a URI query value may hold as it is.
pub open spec fn is_unreserved(b: u8) -> bool {
    (65 <= b <= 90) || (97 <= b <= 122) || (48 <= b <= 57) || b == 45 || b == 95 || b == 46 || b == 126
}

/// The upper-case hexadecimal digit of a value below 16.
pub open spec fn hex_digit(n: u8) -> char {
    if n < 10 {
        (48 + n) as char
    } else {
        (55 + n) as char
    }
}

pub open spec fn encoded_byte(b: u8) -> Seq<char> {
    if is_unreserved(b) {
        seq![b as char]
    } else {
        seq!['%', hex_digit(b / 16), hex_digit(b % 16)]
    }
}

pub open spec fn percent_encoded(bytes: Seq<u8>) -> Seq<char>
    decreases bytes.len(),
{
    if bytes.len() == 0 {
        Seq::empty()
    } else {
        percent_encoded(bytes.drop_last()) + encoded_byte(bytes.last())
    }
}

/// A URI query value: the UTF-8 bytes of the text, each unreserved one as
/// it is and every other one as `%` and two upper-case hexadecimal digits.
pub open spec fn encode_query_spec(value: Seq<char>) -> Seq<char> {
    percent_encoded(encode_utf8(value))
}

fn hex_digit_of(n: u8) -> (c: char)
    requires
        n < 16,
    ensures
        c == hex_digit(n),
{
    if n < 10 {
        (48 + n) as char
    } else {
        (55 + n) as char
    }
}

/// Encodes a text as a URI query value (see `encode_query_spec`).
pub fn encode_query_value(value: &str) -> (encoded: String)
    ensures
        encoded@ == encode_query_spec(value@),
{
    let bytes = value.as_bytes();
    let mut out: Vec<char> = Vec::new();
    let mut i: usize = 0;
    while i < bytes.len()
        invariant
            bytes@ == encode_utf8(value@),
            i <= bytes@.len(),
            out@ == percent_encoded(bytes@.subrange(0, i as int)),
        decreases bytes@.len() - i,
    {
        let b = bytes[i];
        let ghost before = out@;
        if (65 <= b && b <= 90) || (97 <= b && b <= 122) || (48 <= b && b <= 57) || b == 45 || b == 95 || b == 46
            || b == 126 {
            out.push(b as char);
        } else {
            out.push('%');
            out.push(hex_digit_of(b / 16));
            out.push(hex_digit_of(b % 16));
        }
        proof {
            let next = bytes@.subrange(0, i + 1);
            assert(next.drop_last() =~= bytes@.subrange(0, i as int));
            assert(next.last() == b);
            assert(out@ =~= before + encoded_byte(b));
        }
        i = i + 1;
    }
    assert(bytes@.subrange(0, bytes@.len() as int) =~= bytes@);
    string_of(&out)
}

fn encode_chars(value: &Vec<char>) -> (encoded: Vec<char>)
    ensures
        encoded@ == encode_query_spec(value@),
{
    let text = string_of(value);
    chars_of(encode_query_value(text.as_str()).as_str())
}

/// The JetBrains Gateway link that opens `path` on an SSH host in the IDE
/// with `product_code`: the host is `user@address`, the user optional, and
/// the address split into host name and port.
pub open spec fn jetbrains_remote_uri_spec(host: Seq<char>, path: Seq<char>, product_code: Seq<char>) -> Seq<char> {
    let user = match last_index_of(host, '@') {
        Some(i) => Some(host.subrange(0, i as int)),
        None => None,
    };
    let address = match last_index_of(host, '@') {
        Some(i) => host.subrange((i + 1) as int, host.len() as int),
        None => host,
    };
    let (hostname, port) = split_host_port_spec(address);
    "jetbrains://gateway/ssh/environment?h="@ + encode_query_spec(hostname) + "&p="@ + decimal_chars(port as nat)
        + "&launchIde=true&projectHint="@ + encode_query_spec(normalized_remote_path_spec(path)) + "&ideHint="@
        + encode_query_spec(product_code) + match user {
        Some(u) => "&u="@ + encode_query_spec(u),
        None => Seq::empty(),
    }
}

/// The JetBrains Gateway link for a remote project (see
/// `jetbrains_remote_uri_spec`).
pub fn jetbrains_remote_uri(host: &str, path: &str, product_code: &str) -> (uri: String)
    ensures
        uri@ == jetbrains_remote_uri_spec(host@, path@, product_code@),
{
    let h = chars_of(host);
    let n = h.len();
    let at = last_index(&h, '@');
    proof {
        lemma_last_index_bounds(h@, '@');
    }
    let address = match at {
        Some(i) => slice_of(&h, i + 1, n),
        None => slice_of(&h, 0, n),
    };
    assert(h@.subrange(0, n as int) =~= h@);
    let (hostname, port) = split_host_port_of(&address);
    let mut out = chars_of("jetbrains://gateway/ssh/environment?h=");
    append(&mut out, &encode_chars(&hostname));
    append(&mut out, &chars_of("&p="));
    append(&mut out, &decimal_chars_of(port as u64));
    append(&mut out, &chars_of("&launchIde=true&projectHint="));
    let projected = chars_of(normalized_remote_path(path).as_str());
    append(&mut out, &encode_chars(&projected));
    append(&mut out, &chars_of("&ideHint="));
    append(&mut out, &encode_chars(&chars_of(product_code)));
    match at {
        Some(i) => {
            append(&mut out, &chars_of("&u="));
            append(&mut out, &encode_chars(&slice_of(&h, 0, i)));
        },
        None => {},
    }
    assert(out@ =~= jetbrains_remote_uri_spec(host@, path@, product_code@));
    string_of(&out)
}

/// The program and arguments that open a project in an editor.
#[derive(Clone, Debug, PartialEq, Eq)]
pub struct EditorLaunchRequest {
    pub program: String,
    pub args: Vec<String>,
}

/// How an editor opens a project at `path`, on the SSH host `host` when there
/// is one: a local folder is passed to the editor as it is; a remote one
/// through the editor's SSH remote (VS Code family) or the Gateway link
/// (JetBrains, with a thin client and a transport); any other editor
/// cannot open it.
pub open spec fn launch_request_spec(editor: EditorView, host: Option<Seq<char>>, path: Seq<char>) -> Result<
    (Seq<char>, Seq<Seq<char>>),
    Seq<char>,
> {
    match host {
        None => Ok((editor.executable, seq![path])),
        Some(h) => match editor.kind {
            EditorKindView::Code { remote: true } => Ok(
                (editor.executable, seq!["--remote"@, "ssh-remote+"@ + h, normalized_remote_path_spec(path)]),
            ),
            EditorKindView::JetBrains { product_code, remote: true, transport: Some(t), .. } => Ok(
                (t, seq![jetbrains_remote_uri_spec(h, path, product_code)]),
            ),
            _ => Err(editor.label + " does not expose an SSH project launcher"@),
        },
    }
}

impl DetectedEditor {
    /// The program and arguments that open the project in this editor (see
    /// `launch_request_spec`).
    pub fn launch_request(&self, project: &Project) -> (request: Result<EditorLaunchRequest, String>)
        ensures
            match request {
                Ok(r) => launch_request_spec(self@, project.source.spec_host(), project.path@) == Ok::<
                    (Seq<char>, Seq<Seq<char>>),
                    Seq<char>,
                >((r.program@, strings_view(r.args@))),
                Err(e) => launch_request_spec(self@, project.source.spec_host(), project.path@) == Err::<
                    (Seq<char>, Seq<Seq<char>>),
                    Seq<char>,
                >(e@),
            },
    {
        match &project.source {
            ProjectSource::Local => {
                let mut args: Vec<String> = Vec::new();
                args.push(project.path.clone());
                assert(strings_view(args@) =~= seq![project.path@]);
                Ok(EditorLaunchRequest { program: self.executable.clone(), args })
            },
            ProjectSource::Remote { host, .. } => match &self.kind {
                EditorKind::Code { remote: true } => {
                    let mut target = chars_of("ssh-remote+");
                    append(&mut target, &chars_of(host.as_str()));
                    let mut args: Vec<String> = Vec::new();
                    args.push(string_of(&chars_of("--remote")));
                    args.push(string_of(&target));
                    args.push(normalized_remote_path(project.path.as_str()));
                    assert(strings_view(args@) =~= seq![
                        "--remote"@,
                        "ssh-remote+"@ + host@,
                        normalized_remote_path_spec(project.path@),
                    ]);
                    Ok(EditorLaunchRequest { program: self.executable.clone(), args })
                },
                EditorKind::JetBrains { product_code, remote: true, transport: Some(transport), .. } => {
                    let mut args: Vec<String> = Vec::new();
                    args.push(jetbrains_remote_uri(host.as_str(), project.path.as_str(), product_code.as_str()));
                    assert(strings_view(args@) =~= seq![
                        jetbrains_remote_uri_spec(host@, project.path@, product_code@),
                    ]);
                    Ok(EditorLaunchRequest { program: transport.clone(), args })
                },
                _ => {
                    let mut message = chars_of(self.label.as_str());
                    append(&mut message, &chars_of(" does not expose an SSH project launcher"));
                    Err(string_of(&message))
                },
            },
        }
    }
}

fn copy_kinds(kinds: &Vec<EditorProjectKind>) -> (copy: Vec<EditorProjectKind>)
    ensures
        copy@ == kinds@,
{
    let mut copy: Vec<EditorProjectKind> = Vec::new();
    let mut i: usize = 0;
    while i < kinds.len()
        invariant
            i <= kinds@.len(),
            copy@ == kinds@.subrange(0, i as int),
        decreases kinds@.len() - i,
    {
        copy.push(kinds[i]);
        i = i + 1;
        assert(copy@ =~= kinds@.subrange(0, i as int));
    }
    assert(kinds@.subrange(0, kinds@.len() as int) =~= kinds@);
    copy
}

/// A copy of the editor.
pub fn copy_editor(editor: &DetectedEditor) -> (copy: DetectedEditor)
    ensures
        copy@ == editor@,
{
    let kind = match &editor.kind {
        EditorKind::Local => EditorKind::Local,
        EditorKind::Code { remote } => EditorKind::Code { remote: *remote },
        EditorKind::JetBrains { product_code, remote, transport, project_kinds } => EditorKind::JetBrains {
            product_code: product_code.clone(),
            remote: *remote,
            transport: match transport {
                Some(t) => Some(t.clone()),
                None => None,
            },
            project_kinds: copy_kinds(project_kinds),
        },
    };
    DetectedEditor {
        id: editor.id.clone(),
        label: editor.label.clone(),
        executable: editor.executable.clone(),
        kind,
    }
}

/// Whether the launcher lists an editor for a project: the project is local
/// or the editor reaches SSH hosts, the editor suits the project, and the
/// (trimmed, lower-cased) query is empty or occurs in the lower-cased label
/// or in the id.
pub open spec fn editor_offered(
    editor: EditorView,
    query: Seq<char>,
    remote: bool,
    project_type: ProjectType,
    markers: Seq<Seq<char>>,
) -> bool {
    &&& (!remote || supports_remote_spec(editor.kind))
    &&& supports_project_spec(editor.kind, project_type, markers)
    &&& (query.len() == 0 || contains_seq(ascii_lower_seq(editor.label), query) || contains_seq(editor.id, query))
}

pub open spec fn editors_view(editors: Seq<DetectedEditor>) -> Seq<EditorView> {
    editors.map_values(|e: DetectedEditor| e@)
}

/// The editors the launcher lists for a project and query, in their order.
pub open spec fn filtered_editors_spec(editors: Seq<EditorView>, query: Seq<char>, project: Project) -> Seq<EditorView> {
    let q = ascii_lower_seq(trim(query));
    editors.filter(
        |e: EditorView|
            editor_offered(
                e,
                q,
                project.source.spec_is_remote(),
                project.project_type,
                strings_view(project.markers_found@),
            ),
    )
}

/// The editors to list for a project and query (see `filtered_editors_spec`).
pub fn filtered_editors(editors: &[DetectedEditor], query: &str, project: &Project) -> (found: Vec<DetectedEditor>)
    ensures
        editors_view(found@) == filtered_editors_spec(editors_view(editors@), query@, *project),
{
    let q = ascii_lowercase(&trimmed(&chars_of(query)));
    let remote = project.source.is_remote();
    let ghost all = editors_view(editors@);
    let ghost pred = |e: EditorView|
        editor_offered(
            e,
            ascii_lower_seq(trim(query@)),
            project.source.spec_is_remote(),
            project.project_type,
            strings_view(project.markers_found@),
        );
    let mut found: Vec<DetectedEditor> = Vec::new();
    let mut i: usize = 0;
    assert(all.subrange(0, 0) =~= Seq::<EditorView>::empty());
    proof {
        reveal(Seq::filter);
    }
    while i < editors.len()
        invariant
            all == editors_view(editors@),
            q@ == ascii_lower_seq(trim(query@)),
            remote == project.source.spec_is_remote(),
            pred == (|e: EditorView|
                editor_offered(
                    e,
                    ascii_lower_seq(trim(query@)),
                    project.source.spec_is_remote(),
                    project.project_type,
                    strings_view(project.markers_found@),
                )),
            i <= editors@.len(),
            editors_view(found@) == all.subrange(0, i as int).filter(pred),
        decreases editors@.len() - i,
    {
        let editor = &editors[i];
        let offered = (!remote || editor.supports_remote()) && editor.supports_project(project) && (q.len() == 0
            || contains_chars(&ascii_lowercase(&chars_of(editor.label.as_str())), &q) || contains_chars(
            &chars_of(editor.id.as_str()),
            &q,
        ));
        let ghost before = editors_view(found@);
        proof {
            let next = all.subrange(0, i + 1);
            assert(next.drop_last() =~= all.subrange(0, i as int));
            assert(next.last() == editor@);
            reveal(Seq::filter);
            assert(offered == pred(editor@));
        }
        if offered {
            found.push(copy_editor(editor));
            assert(editors_view(found@) =~= before.push(editor@));
        }
        i = i + 1;
    }
    assert(all.subrange(0, all.len() as int) =~= all);
    found
}

/// A program found while looking for editors: its path, the name its
/// launcher entry gives it, and whether that entry declares it an editor.
#[derive(Clone, Debug, PartialEq, Eq)]
pub struct LauncherCandidate {
    pub executable: String,
    pub label: Option<String>,
    pub declared_editor: bool,
}

/// A custom command entry of JetBrains launch metadata.
#[derive(Clone, Debug, PartialEq, Eq)]
pub struct JetBrainsCommand {
    pub commands: Vec<String>,
}

/// How a JetBrains IDE is launched on one operating system.
#[derive(Clone, Debug, PartialEq, Eq)]
pub struct JetBrainsLaunch {
    pub os: String,
    pub launcher_path: String,
    pub custom_commands: Vec<JetBrainsCommand>,
}

/// JetBrains product metadata (`product-info.json`), the fields that editor
/// discovery reads.
#[derive(Clone, Debug, PartialEq, Eq)]
pub struct JetBrainsProduct {
    pub name: String,
    pub product_code: String,
    pub launch: Vec<JetBrainsLaunch>,
    pub modules: Vec<JetBrainsModule>,
}

/// What the file system tells about a candidate: whether the executable is
/// the SSH transport of JetBrains Gateway; the JetBrains product metadata found beside it, with, for each
/// of its launch entries, the launcher's path when that file exists; and the
/// VS Code family metadata found beside it.
#[derive(Clone, Debug, PartialEq, Eq)]
pub struct CandidateFacts {
    pub remote_transport: bool,
    pub jetbrains: Option<JetBrainsProduct>,
    pub launchers: Vec<Option<String>>,
    pub code: Option<CodeProduct>,
}

/// The first entry from `from` on whose operating system is the platform's
/// name, in any case.
pub open spec fn launch_index_from(launch: Seq<JetBrainsLaunch>, platform: Platform, from: nat) -> Option<nat>
    decreases launch.len() - from,
{
    if from >= launch.len() {
        None
    } else if ascii_lower_seq(launch[from as int].os@) == ascii_lower_seq(platform_name_spec(platform)) {
        Some(from)
    } else {
        launch_index_from(launch, platform, from + 1)
    }
}

/// A launch entry offers the JetBrains thin client, which opens projects
/// over SSH.
pub open spec fn has_thin_client(launch: JetBrainsLaunch) -> bool {
    exists|i: int, j: int|
        0 <= i < launch.custom_commands@.len() && 0 <= j < launch.custom_commands@[i].commands@.len()
            && ascii_lower_seq((#[trigger] launch.custom_commands@[i].commands@[j])@) == ascii_lower_seq(
            "thinClient"@,
        )
}

/// A file stem that names Zed itself, in any case.
pub open spec fn is_zed_name(stem: Option<Seq<char>>) -> bool {
    stem matches Some(s) && ascii_lower_seq(s) == ascii_lower_seq("zed"@)
}

/// The label of a VS Code family editor: the long product name, else the
/// short one, else the candidate's label, else the application name.
pub open spec fn code_label(product: CodeProduct, candidate_label: Option<String>) -> Seq<char> {
    match product.name_long {
        Some(n) => n@,
        None => match product.name_short {
            Some(n) => n@,
            None => match candidate_label {
                Some(l) => l@,
                None => match product.application_name {
                    Some(a) => a@,
                    None => Seq::empty(),
                },
            },
        },
    }
}

/// The editor a candidate is, if any, given the file stem of its
/// executable. Zed itself (by that stem) and the Gateway transport are no
/// editors. With JetBrains metadata it is the IDE whose launch entry matches
/// the platform, when that launcher exists; with VS Code family metadata it
/// is that editor unless the metadata names Zed; otherwise it is a plain
/// editor, named by its launcher entry or its stem, when that entry declares
/// one. An editor whose label would be blank is none.
pub open spec fn inspect_spec(
    candidate: LauncherCandidate,
    stem: Option<Seq<char>>,
    transport: Option<Seq<char>>,
    facts: CandidateFacts,
    platform: Platform,
) -> Option<EditorView> {
    if is_zed_name(stem) || facts.remote_transport {
        None
    } else if facts.jetbrains is Some {
        let product = facts.jetbrains->0;
        match launch_index_from(product.launch@, platform, 0) {
            None => None,
            Some(i) => if i < facts.launchers@.len() && facts.launchers@[i as int] is Some && trim(product.name@).len() > 0 {
                let executable = (facts.launchers@[i as int]->0)@;
                Some(
                    EditorView {
                        id: editor_id_spec(executable, platform),
                        label: product.name@,
                        executable,
                        kind: EditorKindView::JetBrains {
                            product_code: product.product_code@,
                            remote: has_thin_client(product.launch@[i as int]),
                            transport,
                            project_kinds: jetbrains_kinds(product.modules@),
                        },
                    },
                )
            } else {
                None
            },
        }
    } else if facts.code is Some {
        let product = facts.code->0;
        let application = match product.application_name {
            Some(a) => a@,
            None => Seq::empty(),
        };
        let label = code_label(product, candidate.label);
        if ascii_lower_seq(application) == ascii_lower_seq("zed"@) || trim(label).len() == 0 {
            None
        } else {
            Some(
                EditorView {
                    id: editor_id_spec(candidate.executable@, platform),
                    label,
                    executable: candidate.executable@,
                    kind: EditorKindView::Code {
                        remote: product.remote_name is Some || product.server_application_name is Some
                            || product.tunnel_application_name is Some,
                    },
                },
            )
        }
    } else if candidate.declared_editor {
        let label = match candidate.label {
            Some(l) => l@,
            None => match stem {
                Some(s) => s,
                None => Seq::empty(),
            },
        };
        if trim(label).len() == 0 {
            None
        } else {
            Some(
                EditorView {
                    id: editor_id_spec(candidate.executable@, platform),
                    label,
                    executable: candidate.executable@,
                    kind: EditorKindView::Local,
                },
            )
        }
    } else {
        None
    }
}

/// Whether `stem` can be what `Path::file_stem` gives for the executable:
/// a piece of it, and exactly `stem_of` for a plain path.
pub open spec fn stem_fits(executable: Seq<char>, stem: Option<Seq<char>>) -> bool {
    &&& stem matches Some(s) ==> contains_seq(executable, s)
    &&& plain_path(executable) ==> stem == stem_of(executable)
}

fn same_ignoring_ascii_case(a: &str, b: &str) -> (same: bool)
    ensures
        same == (ascii_lower_seq(a@) == ascii_lower_seq(b@)),
{
    same_chars(&ascii_lowercase(&chars_of(a)), &ascii_lowercase(&chars_of(b)))
}

/// Whether a file stem names Zed itself.
pub fn is_zed_stem(stem: Option<&str>) -> (zed: bool)
    ensures
        zed == is_zed_name(
            match stem {
                Some(s) => Some(s@),
                None => None,
            },
        ),
{
    match stem {
        Some(s) => same_ignoring_ascii_case(s, "zed"),
        None => false,
    }
}

/// `std::path::Path::file_stem` of the path, as a string. It is a piece of
/// the path; for a path that reads the same on every platform
/// (`plain_path`) it is the stem `stem_of` gives, as the documentation of
/// `Path::file_stem` describes it. For other paths the file name depends on
/// the platform's separators and prefixes, which is left unsaid.
#[verifier::external_body]
fn path_file_stem(path: &str) -> (stem: Option<String>)
    ensures
        stem matches Some(s) ==> contains_seq(path@, s@),
        plain_path(path@) ==> option_text_view(stem) == stem_of(path@),
{
    std::path::Path::new(path).file_stem().and_then(|s| s.to_str()).map(|s| s.to_string())
}

/// Whether the executable is Zed itself, which DevHub opens directly and
/// never lists: its file stem is "zed" in any case. For a plain path
/// (`plain_path`) that stem is the one `stem_of` gives: `/usr/bin/zed` and
/// `C/Zed.exe` are Zed.
pub fn is_first_party_zed(path: &str) -> (zed: bool)
    ensures
        exists|stem: Option<Seq<char>>|
            (stem matches Some(s) ==> contains_seq(path@, s)) && zed == is_zed_name(stem),
        plain_path(path@) ==> zed == is_zed_name(stem_of(path@)),
{
    let stem = path_file_stem(path);
    let zed = match &stem {
        Some(s) => is_zed_stem(Some(s.as_str())),
        None => is_zed_stem(None),
    };
    assert(zed == is_zed_name(option_text_view(stem)));
    zed
}

fn launch_index(launch: &Vec<JetBrainsLaunch>, platform: Platform) -> (found: Option<usize>)
    ensures
        match found {
            Some(i) => launch_index_from(launch@, platform, 0) == Some(i as nat) && i < launch@.len(),
            None => launch_index_from(launch@, platform, 0) is None,
        },
{
    let name = platform_name(platform);
    let mut i: usize = 0;
    while i < launch.len()
        invariant
            name@ == platform_name_spec(platform),
            i <= launch@.len(),
            launch_index_from(launch@, platform, 0) == launch_index_from(launch@, platform, i as nat),
        decreases launch@.len() - i,
    {
        if same_ignoring_ascii_case(launch[i].os.as_str(), name) {
            return Some(i);
        }
        i = i + 1;
    }
    None
}

fn thin_client(launch: &JetBrainsLaunch) -> (found: bool)
    ensures
        found == has_thin_client(*launch),
{
    let mut i: usize = 0;
    while i < launch.custom_commands.len()
        invariant
            i <= launch.custom_commands@.len(),
            forall|a: int, b: int|
                0 <= a < i && 0 <= b < launch.custom_commands@[a].commands@.len() ==> ascii_lower_seq(
                    (#[trigger] launch.custom_commands@[a].commands@[b])@,
                ) != ascii_lower_seq("thinClient"@),
        decreases launch.custom_commands@.len() - i,
    {
        let commands = &launch.custom_commands[i].commands;
        let mut j: usize = 0;
        while j < commands.len()
            invariant
                commands@ == launch.custom_commands@[i as int].commands@,
                i < launch.custom_commands@.len(),
                j <= commands@.len(),
                forall|a: int, b: int|
                    0 <= a < i && 0 <= b < launch.custom_commands@[a].commands@.len() ==> ascii_lower_seq(
                        (#[trigger] launch.custom_commands@[a].commands@[b])@,
                    ) != ascii_lower_seq("thinClient"@),
                forall|b: int| 0 <= b < j ==> ascii_lower_seq((#[trigger] commands@[b])@) != ascii_lower_seq("thinClient"@),
            decreases commands@.len() - j,
        {
            if same_ignoring_ascii_case(commands[j].as_str(), "thinClient") {
                assert(ascii_lower_seq(launch.custom_commands@[i as int].commands@[j as int]@) == ascii_lower_seq(
                    "thinClient"@,
                ));
                return true;
            }
            j = j + 1;
        }
        i = i + 1;
    }
    false
}

fn optional_copy(text: &Option<String>) -> (copy: Option<String>)
    ensures
        option_text_view(copy) == option_text_view(*text),
{
    match text {
        Some(t) => Some(t.clone()),
        None => None,
    }
}

/// The editor a candidate is, if any, given its executable's file stem
/// (see `inspect_spec`).
fn inspect_with_stem(
    candidate: &LauncherCandidate,
    stem: &Option<String>,
    transport: Option<String>,
    facts: &CandidateFacts,
    platform: Platform,
) -> (editor: Option<DetectedEditor>)
    ensures
        match editor {
            Some(e) => inspect_spec(*candidate, option_text_view(*stem), option_text_view(transport), *facts, platform)
                == Some(e@),
            None => inspect_spec(*candidate, option_text_view(*stem), option_text_view(transport), *facts, platform) is None,
        },
{
    let zed = match stem {
        Some(s) => is_zed_stem(Some(s.as_str())),
        None => is_zed_stem(None),
    };
    if zed || facts.remote_transport {
        return None;
    }
    match &facts.jetbrains {
        Some(product) => {
            let i = match launch_index(&product.launch, platform) {
                Some(i) => i,
                None => return None,
            };
            if i >= facts.launchers.len() {
                return None;
            }
            let executable = match &facts.launchers[i] {
                Some(e) => e.clone(),
                None => return None,
            };
            let remote = thin_client(&product.launch[i]);
            if trimmed(&chars_of(product.name.as_str())).len() == 0 {
                return None;
            }
            let project_kinds = jetbrains_project_kinds(product.modules.as_slice());
            let id = editor_id(executable.as_str(), platform);
            return Some(
                DetectedEditor {
                    id,
                    label: product.name.clone(),
                    executable,
                    kind: EditorKind::JetBrains {
                        product_code: product.product_code.clone(),
                        remote,
                        transport,
                        project_kinds,
                    },
                },
            );
        },
        None => {},
    }
    match &facts.code {
        Some(product) => {
            let remote = code_supports_remote(product);
            let application = match &product.application_name {
                Some(a) => a.clone(),
                None => String::new(),
            };
            if same_ignoring_ascii_case(application.as_str(), "zed") {
                return None;
            }
            let label = match &product.name_long {
                Some(n) => n.clone(),
                None => match &product.name_short {
                    Some(n) => n.clone(),
                    None => match &candidate.label {
                        Some(l) => l.clone(),
                        None => application,
                    },
                },
            };
            if trimmed(&chars_of(label.as_str())).len() == 0 {
                return None;
            }
            return Some(
                DetectedEditor {
                    id: editor_id(candidate.executable.as_str(), platform),
                    label,
                    executable: candidate.executable.clone(),
                    kind: EditorKind::Code { remote },
                },
            );
        },
        None => {},
    }
    if candidate.declared_editor {
        let label = match &candidate.label {
            Some(l) => l.clone(),
            None => match stem {
                Some(s) => s.clone(),
                None => String::new(),
            },
        };
        if trimmed(&chars_of(label.as_str())).len() == 0 {
            return None;
        }
        Some(
            DetectedEditor {
                id: editor_id(candidate.executable.as_str(), platform),
                label,
                executable: candidate.executable.clone(),
                kind: EditorKind::Local,
            },
        )
    } else {
        None
    }
}

/// The editor a candidate is, if any: `inspect_spec` with the file stem
/// that `Path::file_stem` gives for its executable (see `stem_fits`). An
/// editor found has a label that is not blank.
pub fn inspect_editor(
    candidate: &LauncherCandidate,
    transport: Option<String>,
    facts: &CandidateFacts,
    platform: Platform,
) -> (editor: Option<DetectedEditor>)
    ensures
        exists|stem: Option<Seq<char>>|
            stem_fits(candidate.executable@, stem) && match editor {
                Some(e) => inspect_spec(*candidate, stem, option_text_view(transport), *facts, platform) == Some(e@),
                None => inspect_spec(*candidate, stem, option_text_view(transport), *facts, platform) is None,
            },
        editor matches Some(e) ==> trim(e.label@).len() > 0,
{
    let stem = path_file_stem(candidate.executable.as_str());
    let editor = inspect_with_stem(candidate, &stem, transport, facts, platform);
    proof {
        lemma_inspected_label(*candidate, option_text_view(stem), option_text_view(transport), *facts, platform);
        assert(stem_fits(candidate.executable@, option_text_view(stem)));
    }
    editor
}

/// An editor that a candidate is has a label that is not blank.
proof fn lemma_inspected_label(
    candidate: LauncherCandidate,
    stem: Option<Seq<char>>,
    transport: Option<Seq<char>>,
    facts: CandidateFacts,
    platform: Platform,
)
    ensures
        inspect_spec(candidate, stem, transport, facts, platform) matches Some(e) ==> trim(e.label).len() > 0,
{
}

/// Lexicographic order of texts, by code point.
pub open spec fn text_lt(a: Seq<char>, b: Seq<char>) -> bool
    decreases a.len(),
{
    if a.len() == 0 {
        b.len() > 0
    } else if b.len() == 0 {
        false
    } else if a[0] != b[0] {
        a[0] < b[0]
    } else {
        text_lt(a.drop_first(), b.drop_first())
    }
}

pub(crate) proof fn lemma_text_lt_irreflexive(a: Seq<char>)
    ensures
        !text_lt(a, a),
    decreases a.len(),
{
    if a.len() > 0 {
        lemma_text_lt_irreflexive(a.drop_first());
    }
}

pub(crate) proof fn lemma_text_lt_asymmetric(a: Seq<char>, b: Seq<char>)
    ensures
        text_lt(a, b) ==> !text_lt(b, a),
    decreases a.len(),
{
    if a.len() > 0 && b.len() > 0 && a[0] == b[0] {
        lemma_text_lt_asymmetric(a.drop_first(), b.drop_first());
    }
}

pub(crate) proof fn lemma_text_lt_transitive(a: Seq<char>, b: Seq<char>, c: Seq<char>)
    ensures
        text_lt(a, b) && text_lt(b, c) ==> text_lt(a, c),
    decreases a.len(),
{
    if a.len() > 0 && b.len() > 0 && c.len() > 0 {
        lemma_text_lt_transitive(a.drop_first(), b.drop_first(), c.drop_first());
    }
}

pub(crate) proof fn lemma_text_lt_total(a: Seq<char>, b: Seq<char>)
    ensures
        a != b ==> text_lt(a, b) || text_lt(b, a),
    decreases a.len(),
{
    if a.len() > 0 && b.len() > 0 && a[0] == b[0] {
        lemma_text_lt_total(a.drop_first(), b.drop_first());
        if a.drop_first() == b.drop_first() {
            assert(a =~= seq![a[0]] + a.drop_first());
            assert(b =~= seq![b[0]] + b.drop_first());
        }
    } else if a.len() == 0 && b.len() == 0 {
        assert(a =~= b);
    }
}

/// Positions ordered by the text at them, and by position among equal texts.
pub open spec fn key_order(keys: Seq<Seq<char>>) -> spec_fn(usize, usize) -> bool {
    |i: usize, j: usize| text_lt(keys[i as int], keys[j as int]) || (keys[i as int] == keys[j as int] && i <= j)
}

pub(crate) proof fn lemma_key_order_total(keys: Seq<Seq<char>>)
    ensures
        total_ordering(key_order(keys)),
{
    let leq = key_order(keys);
    assert forall|i: usize| #[trigger] leq(i, i) by {
    }
    assert forall|i: usize, j: usize| #[trigger] leq(i, j) && #[trigger] leq(j, i) implies i == j by {
        lemma_text_lt_asymmetric(keys[i as int], keys[j as int]);
        lemma_text_lt_irreflexive(keys[i as int]);
    }
    assert forall|i: usize, j: usize, k: usize| #[trigger] leq(i, j) && #[trigger] leq(j, k) implies leq(i, k) by {
        lemma_text_lt_transitive(keys[i as int], keys[j as int], keys[k as int]);
    }
    assert forall|i: usize, j: usize| #[trigger] leq(i, j) || #[trigger] leq(j, i) by {
        lemma_text_lt_total(keys[i as int], keys[j as int]);
    }
}

pub(crate) fn text_less(a: &Vec<char>, b: &Vec<char>) -> (less: bool)
    ensures
        less == text_lt(a@, b@),
{
    let mut i: usize = 0;
    assert(a@.subrange(0, a@.len() as int) =~= a@);
    assert(b@.subrange(0, b@.len() as int) =~= b@);
    while i < a.len() && i < b.len() && a[i] == b[i]
        invariant
            i <= a@.len(),
            i <= b@.len(),
            text_lt(a@.subrange(i as int, a@.len() as int), b@.subrange(i as int, b@.len() as int)) == text_lt(
                a@,
                b@,
            ),
        decreases a@.len() - i,
    {
        assert(a@.subrange(i as int, a@.len() as int).drop_first() =~= a@.subrange(i + 1, a@.len() as int));
        assert(b@.subrange(i as int, b@.len() as int).drop_first() =~= b@.subrange(i + 1, b@.len() as int));
        i = i + 1;
    }
    if i == a.len() {
        i < b.len()
    } else if i == b.len() {
        false
    } else {
        a[i] < b[i]
    }
}

/// The positions `0 .. keys.len()` sorted by `key_order`.
pub(crate) fn sort_positions(keys: &Vec<Vec<char>>) -> (sorted: Vec<usize>)
    ensures
        sorted@ == Seq::new(keys@.len(), |i: int| i as usize).sort_by(key_order(keys@.map_values(|k: Vec<char>| k@))),
{
    broadcast use to_multiset_insert, to_multiset_build;
    let ghost kv = keys@.map_values(|k: Vec<char>| k@);
    let ghost leq = key_order(kv);
    let ghost items = Seq::new(keys@.len(), |i: int| i as usize);
    let mut sorted: Vec<usize> = Vec::new();
    let mut i: usize = 0;
    proof {
        assert(items.subrange(0, 0) =~= Seq::<usize>::empty());
        assert(sorted@.to_multiset() =~= items.subrange(0, 0).to_multiset());
        lemma_key_order_total(kv);
    }
    while i < keys.len()
        invariant
            kv == keys@.map_values(|k: Vec<char>| k@),
            leq == key_order(kv),
            items == Seq::new(keys@.len(), |i: int| i as usize),
            total_ordering(leq),
            i <= keys@.len(),
            sorted_by(sorted@, leq),
            sorted@.to_multiset() == items.subrange(0, i as int).to_multiset(),
            forall|k: int| 0 <= k < sorted@.len() ==> sorted@[k] < i,
        decreases keys@.len() - i,
    {
        let mut p: usize = 0;
        while p < sorted.len() && !text_less(&keys[i], &keys[sorted[p]])
            invariant
                kv == keys@.map_values(|k: Vec<char>| k@),
                leq == key_order(kv),
                total_ordering(leq),
                i < keys@.len(),
                p <= sorted@.len(),
                forall|k: int| 0 <= k < sorted@.len() ==> sorted@[k] < i,
                forall|k: int| 0 <= k < p ==> leq(sorted@[k], i),
            decreases sorted@.len() - p,
        {
            proof {
                let j = sorted@[p as int];
                assert(kv[j as int] == keys@[j as int]@);
                assert(kv[i as int] == keys@[i as int]@);
                lemma_text_lt_total(kv[j as int], kv[i as int]);
            }
            p = p + 1;
        }
        let ghost before = sorted@;
        proof {
            if p < before.len() {
                let j = before[p as int];
                assert(kv[j as int] == keys@[j as int]@);
                assert(kv[i as int] == keys@[i as int]@);
                assert(!leq(j, i)) by {
                    lemma_text_lt_asymmetric(kv[i as int], kv[j as int]);
                }
                assert(leq(i, j));
            }
        }
        sorted.insert(p, i);
        proof {
            assert(sorted@ == before.insert(p as int, i));
            assert forall|a: int, b: int| 0 <= a < b < sorted@.len() implies #[trigger] leq(sorted@[a], sorted@[b]) by {
                if a < p && b == p {
                } else if a < p && b > p {
                    assert(leq(before[a], before[b - 1]));
                } else if a == p && b > p {
                    assert(leq(before[p as int], before[b - 1]) || b - 1 == p);
                } else if a > p {
                    assert(leq(before[a - 1], before[b - 1]));
                } else {
                    assert(leq(before[a], before[b]));
                }
            }
            assert(items.subrange(0, i + 1) =~= items.subrange(0, i as int).push(i));
            to_multiset_insert(before, p as int, i);
            to_multiset_build(items.subrange(0, i as int), i);
        }
        i = i + 1;
    }
    proof {
        assert(items.subrange(0, items.len() as int) =~= items);
        items.lemma_sort_by_ensures(leq);
        lemma_sorted_unique(sorted@, items.sort_by(leq), leq);
    }
    sorted
}

/// The executable of the first candidate that is the Gateway SSH transport.
pub open spec fn transport_from(candidates: Seq<(LauncherCandidate, CandidateFacts)>, from: nat) -> Option<Seq<char>>
    decreases candidates.len() - from,
{
    if from >= candidates.len() {
        None
    } else if candidates[from as int].1.remote_transport {
        Some(candidates[from as int].0.executable@)
    } else {
        transport_from(candidates, from + 1)
    }
}

/// The editors the candidates are, in candidate order.
pub open spec fn inspected(
    candidates: Seq<(LauncherCandidate, CandidateFacts)>,
    stems: Seq<Option<Seq<char>>>,
    transport: Option<Seq<char>>,
    platform: Platform,
) -> Seq<EditorView>
    decreases candidates.len(),
{
    if candidates.len() == 0 {
        Seq::empty()
    } else {
        let earlier = inspected(candidates.drop_last(), stems.drop_last(), transport, platform);
        match inspect_spec(candidates.last().0, stems.last(), transport, candidates.last().1, platform) {
            Some(e) => earlier.push(e),
            None => earlier,
        }
    }
}

pub open spec fn has_id(editors: Seq<EditorView>, id: Seq<char>) -> bool {
    exists|k: int| 0 <= k < editors.len() && (#[trigger] editors[k]).id == id
}

/// The editors without those whose id an earlier one has.
pub open spec fn first_of_each_id(editors: Seq<EditorView>) -> Seq<EditorView>
    decreases editors.len(),
{
    if editors.len() == 0 {
        Seq::empty()
    } else {
        let earlier = first_of_each_id(editors.drop_last());
        if has_id(earlier, editors.last().id) {
            earlier
        } else {
            earlier.push(editors.last())
        }
    }
}

/// The editors found among the candidates, given the file stems of their
/// executables: each candidate inspected (the first Gateway transport
/// serving the JetBrains IDEs), one editor per id, ordered by lower-cased
/// label, candidate order among equal labels.
pub open spec fn detect_spec(
    candidates: Seq<(LauncherCandidate, CandidateFacts)>,
    stems: Seq<Option<Seq<char>>>,
    platform: Platform,
) -> Seq<EditorView> {
    let unique = first_of_each_id(inspected(candidates, stems, transport_from(candidates, 0), platform));
    let keys = unique.map_values(|e: EditorView| ascii_lower_seq(e.label));
    Seq::new(unique.len(), |i: int| i as usize).sort_by(key_order(keys)).map_values(|i: usize| unique[i as int])
}

fn contains_id(editors: &Vec<DetectedEditor>, id: &String) -> (found: bool)
    ensures
        found == has_id(editors_view(editors@), id@),
{
    let ghost view = editors_view(editors@);
    let mut i: usize = 0;
    while i < editors.len()
        invariant
            view == editors_view(editors@),
            i <= editors@.len(),
            forall|k: int| 0 <= k < i ==> (#[trigger] view[k]).id != id@,
        decreases editors@.len() - i,
    {
        if same_chars(&chars_of(editors[i].id.as_str()), &chars_of(id.as_str())) {
            assert(view[i as int].id == id@);
            return true;
        }
        i = i + 1;
    }
    false
}

fn first_transport(candidates: &Vec<(LauncherCandidate, CandidateFacts)>) -> (transport: Option<String>)
    ensures
        option_text_view(transport) == transport_from(candidates@, 0),
{
    let mut t: usize = 0;
    while t < candidates.len()
        invariant
            t <= candidates@.len(),
            transport_from(candidates@, 0) == transport_from(candidates@, t as nat),
        decreases candidates@.len() - t,
    {
        if candidates[t].1.remote_transport {
            return Some(candidates[t].0.executable.clone());
        }
        t = t + 1;
    }
    None
}

/// The editors found among the candidates (see `detect_spec`), with the
/// file stems that `Path::file_stem` gives for their executables (see
/// `stem_fits`). Every editor found has a label that is not blank.
pub fn detect_editors(candidates: &Vec<(LauncherCandidate, CandidateFacts)>, platform: Platform) -> (editors: Vec<
    DetectedEditor,
>)
    ensures
        exists|stems: Seq<Option<Seq<char>>>|
            stems.len() == candidates@.len() && (forall|k: int|
                0 <= k < candidates@.len() ==> stem_fits(candidates@[k].0.executable@, #[trigger] stems[k]))
                && editors_view(editors@) == detect_spec(candidates@, stems, platform),
        forall|k: int| 0 <= k < editors@.len() ==> trim(#[trigger] editors@[k].label@).len() > 0,
{
    let transport = first_transport(candidates);
    assert(option_text_view(transport) == transport_from(candidates@, 0));
    let ghost tv = option_text_view(transport);
    let mut unique: Vec<DetectedEditor> = Vec::new();
    let ghost mut stems: Seq<Option<Seq<char>>> = Seq::empty();
    let mut i: usize = 0;
    assert(candidates@.subrange(0, 0) =~= Seq::<(LauncherCandidate, CandidateFacts)>::empty());
    while i < candidates.len()
        invariant
            tv == option_text_view(transport),
            tv == transport_from(candidates@, 0),
            i <= candidates@.len(),
            stems.len() == i,
            forall|k: int| 0 <= k < i ==> stem_fits(candidates@[k].0.executable@, #[trigger] stems[k]),
            editors_view(unique@) == first_of_each_id(inspected(candidates@.subrange(0, i as int), stems, tv, platform)),
            forall|k: int| 0 <= k < unique@.len() ==> trim(#[trigger] unique@[k].label@).len() > 0,
        decreases candidates@.len() - i,
    {
        let ghost prefix = candidates@.subrange(0, i + 1);
        let ghost before = editors_view(unique@);
        let ghost old_stems = stems;
        assert(prefix.drop_last() =~= candidates@.subrange(0, i as int));
        assert(prefix.last() == candidates@[i as int]);
        let stem = path_file_stem(candidates[i].0.executable.as_str());
        proof {
            stems = stems.push(option_text_view(stem));
            assert(stems.drop_last() =~= old_stems);
            assert(stems.last() == option_text_view(stem));
            lemma_inspected_label(candidates@[i as int].0, option_text_view(stem), tv, candidates@[i as int].1, platform);
        }
        let found = inspect_with_stem(&candidates[i].0, &stem, optional_copy(&transport), &candidates[i].1, platform);
        match found {
            Some(editor) => {
                let ghost ins = inspected(prefix, stems, tv, platform);
                assert(ins.drop_last() =~= inspected(candidates@.subrange(0, i as int), old_stems, tv, platform));
                if !contains_id(&unique, &editor.id) {
                    unique.push(editor);
                    assert(editors_view(unique@) =~= before.push(ins.last()));
                }
            },
            None => {},
        }
        i = i + 1;
    }
    assert(candidates@.subrange(0, candidates@.len() as int) =~= candidates@);
    let ghost uv = editors_view(unique@);
    let mut keys: Vec<Vec<char>> = Vec::new();
    let mut k: usize = 0;
    while k < unique.len()
        invariant
            uv == editors_view(unique@),
            k <= unique@.len(),
            keys@.map_values(|key: Vec<char>| key@) == uv.subrange(0, k as int).map_values(
                |e: EditorView| ascii_lower_seq(e.label),
            ),
        decreases unique@.len() - k,
    {
        let key = ascii_lowercase(&chars_of(unique[k].label.as_str()));
        let ghost before = keys@.map_values(|key: Vec<char>| key@);
        assert(uv[k as int].label == unique@[k as int].label@);
        keys.push(key);
        assert(keys@.map_values(|key: Vec<char>| key@) =~= before.push(ascii_lower_seq(uv[k as int].label)));
        k = k + 1;
        assert(keys@.map_values(|key: Vec<char>| key@) =~= uv.subrange(0, k as int).map_values(
            |e: EditorView| ascii_lower_seq(e.label),
        ));
    }
    assert(uv.subrange(0, uv.len() as int) =~= uv);
    let ghost kv = keys@.map_values(|key: Vec<char>| key@);
    assert(kv =~= uv.map_values(|e: EditorView| ascii_lower_seq(e.label)));
    let order = sort_positions(&keys);
    let ghost items = Seq::new(keys@.len(), |i: int| i as usize);
    proof {
        lemma_key_order_total(kv);
        items.lemma_sort_by_ensures(key_order(kv));
    }
    let mut editors: Vec<DetectedEditor> = Vec::new();
    let mut m: usize = 0;
    while m < order.len()
        invariant
            uv == editors_view(unique@),
            keys@.len() == unique@.len(),
            items == Seq::new(keys@.len(), |i: int| i as usize),
            order@ == items.sort_by(key_order(kv)),
            forall|x: usize| !items.contains(x) ==> !(#[trigger] order@.contains(x)),
            m <= order@.len(),
            editors_view(editors@) == order@.subrange(0, m as int).map_values(|i: usize| uv[i as int]),
            forall|k: int| 0 <= k < unique@.len() ==> trim(#[trigger] unique@[k].label@).len() > 0,
            forall|k: int| 0 <= k < editors@.len() ==> trim(#[trigger] editors@[k].label@).len() > 0,
        decreases order@.len() - m,
    {
        let position = order[m];
        proof {
            assert(order@.contains(position));
            assert(items.contains(position));
            let j = choose|j: int| 0 <= j < items.len() && items[j] == position;
        }
        let ghost before = editors_view(editors@);
        let copy = copy_editor(&unique[position]);
        assert(uv[position as int] == unique@[position as int]@);
        editors.push(copy);
        assert(editors_view(editors@) =~= before.push(uv[position as int]));
        m = m + 1;
        assert(editors_view(editors@) =~= order@.subrange(0, m as int).map_values(|i: usize| uv[i as int]));
    }
    assert(order@.subrange(0, order@.len() as int) =~= order@);
    assert(editors_view(editors@) == detect_spec(candidates@, stems, platform));
    editors
}

/// A line as `str::lines` gives it: without its line feed, and without a
/// carriage return before that line feed.
pub open spec fn line_text(line: Seq<char>) -> Seq<char> {
    if line.len() > 0 && line.last() == '\n' {
        let l = line.drop_last();
        if l.len() > 0 && l.last() == '\r' {
            l.drop_last()
        } else {
            l
        }
    } else {
        line
    }
}

/// The trimmed value of a `key=value` line for `key`.
pub open spec fn key_value(line: Seq<char>, key: Seq<char>) -> Option<Seq<char>> {
    match find_from(line, '=', 0) {
        Some(i) => if line.subrange(0, i as int) == key {
            Some(trim(line.subrange((i + 1) as int, line.len() as int)))
        } else {
            None
        },
        None => None,
    }
}

/// The value of the first line of the list that sets `key`.
pub open spec fn value_in_lines(lines: Seq<Seq<char>>, key: Seq<char>) -> Option<Seq<char>>
    decreases lines.len(),
{
    if lines.len() == 0 {
        None
    } else {
        match key_value(line_text(lines[0]), key) {
            Some(v) => Some(v),
            None => value_in_lines(lines.drop_first(), key),
        }
    }
}

/// The value that a desktop entry gives `key`: that of its first
/// `key=value` line.
pub open spec fn desktop_value_spec(content: Seq<char>, key: Seq<char>) -> Option<Seq<char>> {
    value_in_lines(split_lines(content), key)
}

fn desktop_value_of(lines: &Vec<Vec<char>>, key: &str) -> (value: Option<Vec<char>>)
    ensures
        match value {
            Some(v) => value_in_lines(lines@.map_values(|l: Vec<char>| l@), key@) == Some(v@),
            None => value_in_lines(lines@.map_values(|l: Vec<char>| l@), key@) is None,
        },
{
    let ghost lv = lines@.map_values(|l: Vec<char>| l@);
    let k = chars_of(key);
    let mut i: usize = 0;
    assert(lv.subrange(0, lv.len() as int) =~= lv);
    while i < lines.len()
        invariant
            lv == lines@.map_values(|l: Vec<char>| l@),
            k@ == key@,
            i <= lv.len(),
            value_in_lines(lv, key@) == value_in_lines(lv.subrange(i as int, lv.len() as int), key@),
        decreases lv.len() - i,
    {
        let ghost rest = lv.subrange(i as int, lv.len() as int);
        assert(rest.drop_first() =~= lv.subrange(i + 1, lv.len() as int));
        let raw = &lines[i];
        assert(rest[0] == raw@);
        let n = raw.len();
        let mut end: usize = n;
        if end > 0 && raw[end - 1] == '\n' {
            end = end - 1;
            if end > 0 && raw[end - 1] == '\r' {
                end = end - 1;
            }
        }
        let line = slice_of(raw, 0, end);
        assert(line@ =~= line_text(raw@));
        match find_char_from(&line, '=', 0) {
            Some(eq) => {
                proof {
                    lemma_find_from_bounds(line@, '=', 0);
                }
                let name = slice_of(&line, 0, eq);
                if same_chars(&name, &k) {
                    let value = trimmed(&slice_of(&line, eq + 1, line.len()));
                    return Some(value);
                }
            },
            None => {},
        }
        i = i + 1;
    }
    None
}

/// The value that a desktop entry gives `key` (see `desktop_value_spec`).
pub fn desktop_value(content: &str, key: &str) -> (value: Option<String>)
    ensures
        match value {
            Some(v) => desktop_value_spec(content@, key@) == Some(v@),
            None => desktop_value_spec(content@, key@) is None,
        },
{
    let lines = lines_of(&chars_of(content));
    match desktop_value_of(&lines, key) {
        Some(v) => Some(string_of(&v)),
        None => None,
    }
}

/// The `;`-separated pieces of a list that follow a piece `cur` still being
/// read; empty pieces count.
pub open spec fn pieces_from(s: Seq<char>, cur: Seq<char>) -> Seq<Seq<char>>
    decreases s.len(),
{
    if s.len() == 0 {
        seq![cur]
    } else if s[0] == ';' {
        seq![cur] + pieces_from(s.drop_first(), Seq::empty())
    } else {
        pieces_from(s.drop_first(), cur.push(s[0]))
    }
}

/// Some `;`-separated piece of the list is one of the two texts.
pub open spec fn lists_either(list: Seq<char>, a: Seq<char>, b: Seq<char>) -> bool {
    let pieces = pieces_from(list, Seq::empty());
    exists|k: int| 0 <= k < pieces.len() && (#[trigger] pieces[k] == a || pieces[k] == b)
}

fn lists_either_of(list: &Vec<char>, a: &str, b: &str) -> (found: bool)
    ensures
        found == lists_either(list@, a@, b@),
{
    let mut pieces: Vec<Vec<char>> = Vec::new();
    let mut cur: Vec<char> = Vec::new();
    let mut i: usize = 0;
    assert(list@.subrange(0, list@.len() as int) =~= list@);
    while i < list.len()
        invariant
            i <= list@.len(),
            pieces@.map_values(|p: Vec<char>| p@) + pieces_from(list@.subrange(i as int, list@.len() as int), cur@)
                == pieces_from(list@, Seq::empty()),
        decreases list@.len() - i,
    {
        let ghost rest = list@.subrange(i as int, list@.len() as int);
        let ghost p0 = pieces@.map_values(|p: Vec<char>| p@);
        assert(rest.drop_first() =~= list@.subrange(i + 1, list@.len() as int));
        assert(rest[0] == list@[i as int]);
        let c = list[i];
        if c == ';' {
            let ghost piece = cur@;
            let mut done: Vec<char> = Vec::new();
            std::mem::swap(&mut done, &mut cur);
            pieces.push(done);
            assert(pieces@.map_values(|p: Vec<char>| p@) =~= p0 + seq![piece]);
            assert(p0 + seq![piece] + pieces_from(rest.drop_first(), Seq::empty()) =~= p0 + (seq![piece]
                + pieces_from(rest.drop_first(), Seq::empty())));
            assert(cur@ =~= Seq::<char>::empty());
        } else {
            cur.push(c);
        }
        i = i + 1;
    }
    let ghost p0 = pieces@.map_values(|p: Vec<char>| p@);
    let ghost last = cur@;
    pieces.push(cur);
    let ghost pv = pieces@.map_values(|p: Vec<char>| p@);
    assert(pv =~= p0 + seq![last]);
    assert(list@.subrange(list@.len() as int, list@.len() as int) =~= Seq::<char>::empty());
    assert(pv == pieces_from(list@, Seq::empty()));
    let mut k: usize = 0;
    while k < pieces.len()
        invariant
            pv == pieces@.map_values(|p: Vec<char>| p@),
            pv == pieces_from(list@, Seq::empty()),
            k <= pv.len(),
            forall|j: int| 0 <= j < k ==> !(#[trigger] pv[j] == a@ || pv[j] == b@),
        decreases pv.len() - k,
    {
        if chars_equal_str(&pieces[k], a) || chars_equal_str(&pieces[k], b) {
            assert(pv[k as int] == a@ || pv[k as int] == b@);
            return true;
        }
        k = k + 1;
    }
    false
}

/// The program a desktop entry's command line runs: the quoted path when the
/// (trimmed) command starts with a quote that is closed, else its first
/// word.
pub open spec fn desktop_program_spec(command: Seq<char>) -> Option<Seq<char>> {
    let t = trim(command);
    if t.len() > 0 && t[0] == '"' && find_from(t, '"', 1) is Some {
        Some(t.subrange(1, (find_from(t, '"', 1)->0) as int))
    } else if words(command).len() > 0 {
        Some(words(command)[0])
    } else {
        None
    }
}

/// The program a desktop entry's command line runs (see
/// `desktop_program_spec`).
pub fn desktop_program(command: &str) -> (program: Option<String>)
    ensures
        match program {
            Some(p) => desktop_program_spec(command@) == Some(p@),
            None => desktop_program_spec(command@) is None,
        },
{
    let c = chars_of(command);
    let t = trimmed(&c);
    if t.len() > 0 && t[0] == '"' {
        match find_char_from(&t, '"', 1) {
            Some(end) => {
                proof {
                    lemma_find_from_bounds(t@, '"', 1);
                }
                return Some(string_of(&slice_of(&t, 1, end)));
            },
            None => {},
        }
    }
    let ws = split_words(&c);
    if ws.len() > 0 {
        assert(ws@.map_values(|w: Vec<char>| w@)[0] == ws@[0]@);
        Some(string_of(&ws[0]))
    } else {
        None
    }
}

/// What a desktop entry offers as an editor launcher: its name and the
/// program its command line runs, when the entry names itself, declares an
/// editor (a category "Development" or "TextEditor", or a MIME type
/// "text/plain" or "inode/directory"), is not Zed, and has a command line
/// with a program.
pub open spec fn desktop_launcher_spec(content: Seq<char>) -> Option<(Seq<char>, Seq<char>)> {
    let categories = match desktop_value_spec(content, "Categories"@) {
        Some(v) => v,
        None => Seq::empty(),
    };
    let mime_types = match desktop_value_spec(content, "MimeType"@) {
        Some(v) => v,
        None => Seq::empty(),
    };
    let declared = lists_either(categories, "Development"@, "TextEditor"@) || lists_either(
        mime_types,
        "text/plain"@,
        "inode/directory"@,
    );
    match desktop_value_spec(content, "Name"@) {
        None => None,
        Some(name) => if !declared || ascii_lower_seq(name) == ascii_lower_seq("zed"@) {
            None
        } else {
            match desktop_value_spec(content, "Exec"@) {
                None => None,
                Some(command) => match desktop_program_spec(command) {
                    Some(program) => Some((name, program)),
                    None => None,
                },
            }
        },
    }
}

/// The launcher a desktop entry offers (see `desktop_launcher_spec`).
pub fn desktop_launcher(content: &str) -> (launcher: Option<(String, String)>)
    ensures
        match launcher {
            Some((name, program)) => desktop_launcher_spec(content@) == Some((name@, program@)),
            None => desktop_launcher_spec(content@) is None,
        },
{
    let lines = lines_of(&chars_of(content));
    let name = match desktop_value_of(&lines, "Name") {
        Some(n) => n,
        None => return None,
    };
    let categories = match desktop_value_of(&lines, "Categories") {
        Some(v) => v,
        None => Vec::new(),
    };
    let mime_types = match desktop_value_of(&lines, "MimeType") {
        Some(v) => v,
        None => Vec::new(),
    };
    let declared = lists_either_of(&categories, "Development", "TextEditor") || lists_either_of(
        &mime_types,
        "text/plain",
        "inode/directory",
    );
    if !declared || same_ignoring_ascii_case(string_of(&name).as_str(), "zed") {
        return None;
    }
    let command = match desktop_value_of(&lines, "Exec") {
        Some(c) => c,
        None => return None,
    };
    match desktop_program(string_of(&command).as_str()) {
        Some(program) => Some((string_of(&name), program)),
        None => None,
    }
}

/// The kinds a JetBrains IDE is offered for: the first product found among
/// RustRover (Rust), WebStorm (Web), CLion (Native), Rider (.NET), GoLand or
/// the Go module (Go), PyCharm or the Python module (Python), PhpStorm or
/// the PHP module (PHP), RubyMine or the Ruby module (Ruby), AppCode or the
/// Swift module (Swift) decides, with that one kind alone; an IDE of none of
/// these is offered for Java, Web and Dart exactly as it has the Java,
/// JavaScript and Dart modules.
pub proof fn law_jetbrains_products_decide_their_kinds(modules: Seq<JetBrainsModule>)
    ensures
        has_module(modules, "com.intellij.modules.rustrover"@)
            ==> jetbrains_kinds(modules) == seq![EditorProjectKind::Rust],
        !has_module(modules, "com.intellij.modules.rustrover"@) && has_module(modules, "com.intellij.modules.webstorm"@)
            ==> jetbrains_kinds(modules) == seq![EditorProjectKind::Web],
        !has_module(modules, "com.intellij.modules.rustrover"@) && !has_module(modules, "com.intellij.modules.webstorm"@) && has_module(modules, "com.intellij.modules.clion"@)
            ==> jetbrains_kinds(modules) == seq![EditorProjectKind::Native],
        !has_module(modules, "com.intellij.modules.rustrover"@) && !has_module(modules, "com.intellij.modules.webstorm"@) && !has_module(modules, "com.intellij.modules.clion"@) && has_module(modules, "com.intellij.modules.rider"@)
            ==> jetbrains_kinds(modules) == seq![EditorProjectKind::DotNet],
        !has_module(modules, "com.intellij.modules.rustrover"@) && !has_module(modules, "com.intellij.modules.webstorm"@) && !has_module(modules, "com.intellij.modules.clion"@) && !has_module(modules, "com.intellij.modules.rider"@) && (has_module(modules, "com.intellij.modules.goland"@) || has_module(modules, "com.intellij.modules.go"@))
            ==> jetbrains_kinds(modules) == seq![EditorProjectKind::Go],
        !has_module(modules, "com.intellij.modules.rustrover"@) && !has_module(modules, "com.intellij.modules.webstorm"@) && !has_module(modules, "com.intellij.modules.clion"@) && !has_module(modules, "com.intellij.modules.rider"@) && !has_module(modules, "com.intellij.modules.goland"@) && !has_module(modules, "com.intellij.modules.go"@) && (has_module(modules, "com.intellij.modules.pycharm"@) || has_module(modules, "com.intellij.modules.python"@))
            ==> jetbrains_kinds(modules) == seq![EditorProjectKind::Python],
        !has_module(modules, "com.intellij.modules.rustrover"@) && !has_module(modules, "com.intellij.modules.webstorm"@) && !has_module(modules, "com.intellij.modules.clion"@) && !has_module(modules, "com.intellij.modules.rider"@) && !has_module(modules, "com.intellij.modules.goland"@) && !has_module(modules, "com.intellij.modules.go"@) && !has_module(modules, "com.intellij.modules.pycharm"@) && !has_module(modules, "com.intellij.modules.python"@) && (has_module(modules, "com.intellij.modules.phpstorm"@) || has_module(modules, "com.intellij.modules.php"@))
            ==> jetbrains_kinds(modules) == seq![EditorProjectKind::Php],
        !has_module(modules, "com.intellij.modules.rustrover"@) && !has_module(modules, "com.intellij.modules.webstorm"@) && !has_module(modules, "com.intellij.modules.clion"@) && !has_module(modules, "com.intellij.modules.rider"@) && !has_module(modules, "com.intellij.modules.goland"@) && !has_module(modules, "com.intellij.modules.go"@) && !has_module(modules, "com.intellij.modules.pycharm"@) && !has_module(modules, "com.intellij.modules.python"@) && !has_module(modules, "com.intellij.modules.phpstorm"@) && !has_module(modules, "com.intellij.modules.php"@) && (has_module(modules, "com.intellij.modules.rubymine"@) || has_module(modules, "com.intellij.modules.ruby"@))
            ==> jetbrains_kinds(modules) == seq![EditorProjectKind::Ruby],
        !has_module(modules, "com.intellij.modules.rustrover"@) && !has_module(modules, "com.intellij.modules.webstorm"@) && !has_module(modules, "com.intellij.modules.clion"@) && !has_module(modules, "com.intellij.modules.rider"@) && !has_module(modules, "com.intellij.modules.goland"@) && !has_module(modules, "com.intellij.modules.go"@) && !has_module(modules, "com.intellij.modules.pycharm"@) && !has_module(modules, "com.intellij.modules.python"@) && !has_module(modules, "com.intellij.modules.phpstorm"@) && !has_module(modules, "com.intellij.modules.php"@) && !has_module(modules, "com.intellij.modules.rubymine"@) && !has_module(modules, "com.intellij.modules.ruby"@) && (has_module(modules, "com.intellij.modules.appcode"@) || has_module(modules, "com.intellij.modules.swift"@))
            ==> jetbrains_kinds(modules) == seq![EditorProjectKind::Swift],
        !has_module(modules, "com.intellij.modules.rustrover"@) && !has_module(modules, "com.intellij.modules.webstorm"@) && !has_module(modules, "com.intellij.modules.clion"@) && !has_module(modules, "com.intellij.modules.rider"@) && !has_module(modules, "com.intellij.modules.goland"@) && !has_module(modules, "com.intellij.modules.go"@) && !has_module(modules, "com.intellij.modules.pycharm"@) && !has_module(modules, "com.intellij.modules.python"@) && !has_module(modules, "com.intellij.modules.phpstorm"@) && !has_module(modules, "com.intellij.modules.php"@) && !has_module(modules, "com.intellij.modules.rubymine"@) && !has_module(modules, "com.intellij.modules.ruby"@) && !has_module(modules, "com.intellij.modules.appcode"@) && !has_module(modules, "com.intellij.modules.swift"@) ==> {
            let kinds = jetbrains_kinds(modules);
            &&& kinds.contains(EditorProjectKind::Java) == has_module(modules, "com.intellij.modules.java"@)
            &&& kinds.contains(EditorProjectKind::Web) == has_module(modules, "com.intellij.modules.javascript"@)
            &&& kinds.contains(EditorProjectKind::Dart) == has_module(modules, "com.intellij.modules.dart"@)
            &&& forall|k: int| 0 <= k < kinds.len() ==> #[trigger] kinds[k] == EditorProjectKind::Java
                || kinds[k] == EditorProjectKind::Web || kinds[k] == EditorProjectKind::Dart
        },
{
    let kinds = jetbrains_kinds(modules);
    let java: Seq<EditorProjectKind> = if has_module(modules, "com.intellij.modules.java"@) { seq![EditorProjectKind::Java] } else { Seq::empty() };
    let web: Seq<EditorProjectKind> = if has_module(modules, "com.intellij.modules.javascript"@) { seq![EditorProjectKind::Web] } else { Seq::empty() };
    let dart: Seq<EditorProjectKind> = if has_module(modules, "com.intellij.modules.dart"@) { seq![EditorProjectKind::Dart] } else { Seq::empty() };
    if !has_module(modules, "com.intellij.modules.rustrover"@) && !has_module(modules, "com.intellij.modules.webstorm"@) && !has_module(modules, "com.intellij.modules.clion"@) && !has_module(modules, "com.intellij.modules.rider"@) && !has_module(modules, "com.intellij.modules.goland"@) && !has_module(modules, "com.intellij.modules.go"@) && !has_module(modules, "com.intellij.modules.pycharm"@) && !has_module(modules, "com.intellij.modules.python"@) && !has_module(modules, "com.intellij.modules.phpstorm"@) && !has_module(modules, "com.intellij.modules.php"@) && !has_module(modules, "com.intellij.modules.rubymine"@) && !has_module(modules, "com.intellij.modules.ruby"@) && !has_module(modules, "com.intellij.modules.appcode"@) && !has_module(modules, "com.intellij.modules.swift"@) {
        assert(kinds == java + web + dart);
        assert(java.contains(EditorProjectKind::Java) == has_module(modules, "com.intellij.modules.java"@)) by {
            if has_module(modules, "com.intellij.modules.java"@) { assert(java[0] == EditorProjectKind::Java); }
        }
        assert(web.contains(EditorProjectKind::Web) == has_module(modules, "com.intellij.modules.javascript"@)) by {
            if has_module(modules, "com.intellij.modules.javascript"@) { assert(web[0] == EditorProjectKind::Web); }
        }
        assert(dart.contains(EditorProjectKind::Dart) == has_module(modules, "com.intellij.modules.dart"@)) by {
            if has_module(modules, "com.intellij.modules.dart"@) { assert(dart[0] == EditorProjectKind::Dart); }
        }
        assert forall|k: int| 0 <= k < kinds.len() implies #[trigger] kinds[k] == EditorProjectKind::Java
            || kinds[k] == EditorProjectKind::Web || kinds[k] == EditorProjectKind::Dart by {
            if k < java.len() {
                assert(kinds[k] == java[k]);
            } else if k < java.len() + web.len() {
                assert(kinds[k] == web[k - java.len()]);
            } else {
                assert(kinds[k] == dart[k - java.len() - web.len()]);
            }
        }
        assert(kinds.contains(EditorProjectKind::Java) == has_module(modules, "com.intellij.modules.java"@)) by {
            if kinds.contains(EditorProjectKind::Java) {
                let k = choose|k: int| 0 <= k < kinds.len() && kinds[k] == EditorProjectKind::Java;
                if k >= java.len() && k < java.len() + web.len() {
                    assert(kinds[k] == web[k - java.len()]);
                } else if k >= java.len() {
                    assert(kinds[k] == dart[k - java.len() - web.len()]);
                } else {
                    assert(kinds[k] == java[k]);
                }
            } else if has_module(modules, "com.intellij.modules.java"@) {
                assert(kinds[0] == java[0]);
            }
        }
        assert(kinds.contains(EditorProjectKind::Web) == has_module(modules, "com.intellij.modules.javascript"@)) by {
            if kinds.contains(EditorProjectKind::Web) {
                let k = choose|k: int| 0 <= k < kinds.len() && kinds[k] == EditorProjectKind::Web;
                if k >= java.len() && k < java.len() + web.len() {
                    assert(kinds[k] == web[k - java.len()]);
                } else if k >= java.len() {
                    assert(kinds[k] == dart[k - java.len() - web.len()]);
                } else {
                    assert(kinds[k] == java[k]);
                }
            } else if has_module(modules, "com.intellij.modules.javascript"@) {
                assert(kinds[java.len() as int] == web[0]);
            }
        }
        assert(kinds.contains(EditorProjectKind::Dart) == has_module(modules, "com.intellij.modules.dart"@)) by {
            if kinds.contains(EditorProjectKind::Dart) {
                let k = choose|k: int| 0 <= k < kinds.len() && kinds[k] == EditorProjectKind::Dart;
                if k >= java.len() && k < java.len() + web.len() {
                    assert(kinds[k] == web[k - java.len()]);
                } else if k >= java.len() {
                    assert(kinds[k] == dart[k - java.len() - web.len()]);
                } else {
                    assert(kinds[k] == java[k]);
                }
            } else if has_module(modules, "com.intellij.modules.dart"@) {
                assert(kinds[(java.len() + web.len()) as int] == dart[0]);
            }
        }
    }
}

} // verus!
