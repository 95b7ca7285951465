use vstd::prelude::*;

verus! {

/// Where a project lives: on this machine, or on an SSH host.
#[derive(Clone, Debug, PartialEq, Eq)]
pub enum ProjectSource {
    Local,
    Remote { name: String, host: String },
}

/// The kind of project, from the build files found in it.
#[derive(Clone, Copy, Debug, PartialEq, Eq, Structural)]
pub enum ProjectType {
    Rust,
    Node,
    Go,
    Python,
    Make,
    CMake,
    Assembly,
    DotNet,
    Java,
    Unknown,
}

/// A project of the catalog.
#[derive(Clone, Debug, PartialEq, Eq)]
pub struct Project {
    pub name: String,
    pub path: String,
    pub source: ProjectSource,
    pub project_type: ProjectType,
    pub has_git: bool,
    pub git_remote: Option<String>,
    pub markers_found: Vec<String>,
    pub last_modified: Option<u64>,
    pub search_key: String,
}

/// An SSH host whose roots are scanned for projects.
#[derive(Clone, Debug, PartialEq, Eq)]
pub struct RemoteHostConfig {
    pub name: String,
    pub host: String,
    pub roots: Vec<String>,
    pub max_depth: usize,
}

/// The part of the configuration that decides what a catalog scan covers.
#[derive(Clone, Debug, PartialEq, Eq)]
pub struct Config {
    pub scan_dirs: Vec<String>,
    pub remote_hosts: Vec<RemoteHostConfig>,
    pub max_depth: usize,
}

pub open spec fn strings_view(v: Seq<String>) -> Seq<Seq<char>> {
    v.map_values(|s: String| s@)
}

/// A remote host as plain values: name, host, roots, depth.
pub open spec fn host_view(h: RemoteHostConfig) -> (Seq<char>, Seq<char>, Seq<Seq<char>>, usize) {
    (h.name@, h.host@, strings_view(h.roots@), h.max_depth)
}

pub open spec fn hosts_view(v: Seq<RemoteHostConfig>) -> Seq<(Seq<char>, Seq<char>, Seq<Seq<char>>, usize)> {
    v.map_values(|h: RemoteHostConfig| host_view(h))
}

impl ProjectSource {
    pub open spec fn spec_host(self) -> Option<Seq<char>> {
        match self {
            ProjectSource::Local => None,
            ProjectSource::Remote { host, .. } => Some(host@),
        }
    }

    pub open spec fn spec_is_remote(self) -> bool {
        self is Remote
    }

    /// Whether the project is reached over SSH.
    pub fn is_remote(&self) -> (remote: bool)
        ensures
            remote == self.spec_is_remote(),
    {
        match self {
            ProjectSource::Local => false,
            ProjectSource::Remote { .. } => true,
        }
    }

    /// The SSH host of a remote project.
    pub fn host(&self) -> (host: Option<&str>)
        ensures
            match host {
                Some(h) => self.spec_host() == Some(h@),
                None => self.spec_host() is None,
            },
    {
        match self {
            ProjectSource::Local => None,
            ProjectSource::Remote { host, .. } => Some(host.as_str()),
        }
    }
}

} // verus!
