//! The data model of one logged build action.

use vstd::prelude::*;

verus! {

/// One name/value pair from an action's environment.
#[derive(Debug)]
pub struct EnvironmentVariable {
    pub name: String,
    pub value: String,
}

/// One name/value pair describing the execution platform.
#[derive(Debug)]
pub struct Property {
    pub name: String,
    pub value: String,
}

/// The execution platform, as an ordered list of properties.
#[derive(Debug)]
pub struct Platform {
    pub properties: Vec<Property>,
}

/// A content hash identifying the bytes of a file, hex-encoded in the log.
#[derive(Debug)]
pub struct Digest {
    pub hash: String,
    pub size_bytes: String,
    pub hash_function_name: String,
}

/// A file consumed or produced by an action, as a path and a content digest.
#[derive(Debug)]
pub struct File {
    pub path: String,
    pub digest: Digest,
}

/// Details of an executed spawn, as one record of the execution log.
#[derive(Debug)]
pub struct SpawnExec {
    pub command_args: Vec<String>,
    pub environment_variables: Vec<EnvironmentVariable>,
    pub platform: Platform,
    pub inputs: Vec<File>,
    pub listed_outputs: Vec<String>,
    pub remotable: bool,
    pub cacheable: bool,
    pub progress_message: String,
    pub mnemonic: String,
    pub actual_outputs: Vec<File>,
    pub runner: String,
    pub remote_cache_hit: bool,
    pub status: String,
    pub exit_code: i32,
    pub remote_cacheable: bool,
    pub target_label: String,
    pub digest: Option<Digest>,
}

} // verus!
