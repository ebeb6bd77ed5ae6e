//! Local configuration: where a working copy keeps its private metadata,
//! and the command-line defaults.

use vstd::prelude::*;
use crate::content_id::copy_bytes;
use crate::path::SEPARATOR;

verus! {

/// The name of the private metadata directory of a working copy: `.fs`.
pub open spec fn dot_dir_name() -> Seq<u8> {
    seq![46u8, 102u8, 115u8]
}

/// The name of the baseline manifest file inside it: `dorfs.json`.
pub open spec fn dorfs_file_name() -> Seq<u8> {
    seq![100u8, 111u8, 114u8, 102u8, 115u8, 46u8, 106u8, 115u8, 111u8, 110u8]
}

/// Appends relative path `rel` to `base`, with one separator between them.
pub open spec fn join(base: Seq<u8>, rel: Seq<u8>) -> Seq<u8> {
    if base.len() == 0 {
        rel
    } else if base.last() == SEPARATOR {
        base + rel
    } else {
        base.push(SEPARATOR) + rel
    }
}

fn join_paths(base: &Vec<u8>, rel: &Vec<u8>) -> (r: Vec<u8>)
    ensures
        r@ == join(base@, rel@),
{
    let mut r = copy_bytes(base);
    if r.len() > 0 && r[r.len() - 1] != SEPARATOR {
        r.push(SEPARATOR);
    }
    let ghost head = r@;
    let mut i: usize = 0;
    while i < rel.len()
        invariant
            i <= rel@.len(),
            r@ == head + rel@.subrange(0, i as int),
        decreases rel.len() - i,
    {
        r.push(rel[i]);
        assert(head + rel@.subrange(0, i + 1) =~= (head + rel@.subrange(0, i as int)).push(rel@[i as int]));
        i = i + 1;
    }
    assert(rel@.subrange(0, i as int) =~= rel@);
    assert(base@.len() == 0 ==> head + rel@ =~= rel@);
    r
}

/// The private metadata directory, relative to the working directory.
pub fn dot_dir() -> (r: Vec<u8>)
    ensures
        r@ == dot_dir_name(),
{
    let r = vec![46u8, 102u8, 115u8];
    assert(r@ =~= dot_dir_name());
    r
}

/// The baseline manifest file, relative to the working directory.
pub fn local_dot_dorfs_path() -> (r: Vec<u8>)
    ensures
        r@ == join(dot_dir_name(), dorfs_file_name()),
{
    let name = vec![100u8, 111u8, 114u8, 102u8, 115u8, 46u8, 106u8, 115u8, 111u8, 110u8];
    assert(name@ =~= dorfs_file_name());
    join_paths(&dot_dir(), &name)
}

/// The private metadata directory under `working_dir_path`.
pub fn local_dot_dir_with_base(working_dir_path: &Vec<u8>) -> (r: Vec<u8>)
    ensures
        r@ == join(working_dir_path@, dot_dir_name()),
{
    join_paths(working_dir_path, &dot_dir())
}

/// Why the configuration cannot be used.
#[derive(Debug)]
pub enum ConfigError {
    /// The working directory has no metadata directory: it was never
    /// initialised.
    MissingDotPath(Vec<u8>),
}

/// The metadata directory of a working copy at `working_dir`, given whether
/// that directory exists (`dot_dir_exists`, read from the file system).
pub fn working_dot_dir(working_dir: &Vec<u8>, dot_dir_exists: bool) -> (r: Result<Vec<u8>, ConfigError>)
    ensures
        match r {
            Ok(p) => dot_dir_exists && p@ == join(working_dir@, dot_dir_name()),
            Err(ConfigError::MissingDotPath(p)) => !dot_dir_exists && p@ == join(working_dir@, dot_dir_name()),
        },
{
    let path = local_dot_dir_with_base(working_dir);
    if !dot_dir_exists {
        return Err(ConfigError::MissingDotPath(path));
    }
    Ok(path)
}

/// Command-line defaults kept between runs.
#[derive(Debug)]
pub struct OnDiskDefault {
    device_alias: Option<String>,
}

impl OnDiskDefault {
    /// Defaults with no device chosen.
    pub fn new() -> (r: OnDiskDefault)
        ensures
            r.spec_device_alias() is None,
    {
        OnDiskDefault { device_alias: None }
    }

    pub closed spec fn spec_device_alias(&self) -> Option<Seq<char>> {
        match self.device_alias {
            Some(a) => Some(a@),
            None => None,
        }
    }

    /// Chooses the device to use by default.
    pub fn set_device_alias(&mut self, alias: String)
        ensures
            final(self).spec_device_alias() == Some(alias@),
    {
        self.device_alias = Some(alias);
    }

    /// The chosen device, if any.
    pub fn device_alias(&self) -> (r: Option<String>)
        ensures
            match r {
                Some(a) => self.spec_device_alias() == Some(a@),
                None => self.spec_device_alias() is None,
            },
    {
        match &self.device_alias {
            Some(a) => Some(a.clone()),
            None => None,
        }
    }
}

} // verus!
