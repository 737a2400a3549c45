//! Writing a small file so that a crash leaves the old contents or the new ones,
//! never a part.
use crate::num_text::{decimal, decimal_text};
use crate::unix_path::{append_bytes, file_name, joined, parent, UnixPath};
use vstd::prelude::*;
use vstd::string::*;
use vstd::utf8::*;

verus! {

/// Why a file cannot be written.
#[derive(Clone, Copy, Debug, PartialEq, Eq, Structural)]
pub enum AtomicError {
    NoParent,
    NoFileName,
}

impl AtomicError {
    pub fn message(&self) -> (r: String)
        ensures
            r@ == match *self {
                AtomicError::NoParent => "config path has no parent"@,
                AtomicError::NoFileName => "config path has no file name"@,
            },
    {
        match self {
            AtomicError::NoParent => "config path has no parent".to_owned(),
            AtomicError::NoFileName => "config path has no file name".to_owned(),
        }
    }
}

/// The name of the temporary file for a file and a process.
pub open spec fn temp_name(name: Seq<u8>, pid: nat) -> Seq<u8> {
    encode_utf8("."@) + name + encode_utf8(".tmp."@ + decimal(pid))
}

/// The temporary file that a file is written to first: beside the file, under
/// a name of the process's own.
pub fn temp_path(path: &UnixPath, pid: u32) -> (r: Result<UnixPath, AtomicError>)
    ensures
        match r {
            Err(AtomicError::NoParent) => parent(path@) is None,
            Err(AtomicError::NoFileName) => parent(path@) is Some && file_name(path@) is None,
            Ok(p) => parent(path@) is Some && file_name(path@) is Some && p@ == joined(
                parent(path@)->0,
                temp_name(file_name(path@)->0, pid as nat),
            ),
        },
{
    let dir = match path.parent() {
        Some(d) => d,
        None => {
            return Err(AtomicError::NoParent);
        },
    };
    let name = match path.file_name() {
        Some(n) => n,
        None => {
            return Err(AtomicError::NoFileName);
        },
    };
    let mut tail: String = ".tmp.".to_owned();
    tail.append(decimal_text(pid as u64).as_str());
    let mut tmp: Vec<u8> = Vec::new();
    append_bytes(&mut tmp, ".".as_bytes());
    append_bytes(&mut tmp, &name);
    append_bytes(&mut tmp, tail.as_str().as_bytes());
    assert(tmp@ =~= temp_name(name@, pid as nat));
    Ok(dir.join_bytes(&tmp))
}

/// A step of writing a file.
#[derive(Clone, Copy, Debug, PartialEq, Eq, Structural)]
pub enum AtomicStep {
    /// Write the contents to the temporary file and have them on disk.
    WriteTemp,
    /// Rename the temporary file to the file.
    Rename,
    /// Remove the temporary file; the write failed.
    RemoveTemp,
    Done,
    Failed,
}

/// The step after one that succeeded or not. The file itself is replaced only
/// once its contents are complete on disk, and no failed rename leaves the
/// temporary file.
pub fn next_step(step: AtomicStep, ok: bool) -> (r: AtomicStep)
    ensures
        r == match step {
            AtomicStep::WriteTemp => if ok {
                AtomicStep::Rename
            } else {
                AtomicStep::Failed
            },
            AtomicStep::Rename => if ok {
                AtomicStep::Done
            } else {
                AtomicStep::RemoveTemp
            },
            AtomicStep::RemoveTemp => AtomicStep::Failed,
            AtomicStep::Done => AtomicStep::Done,
            AtomicStep::Failed => AtomicStep::Failed,
        },
        r == AtomicStep::Rename ==> step == AtomicStep::WriteTemp && ok,
        step != AtomicStep::Done ==> (r == AtomicStep::Done <==> step == AtomicStep::Rename && ok),
{
    match step {
        AtomicStep::WriteTemp => if ok {
            AtomicStep::Rename
        } else {
            AtomicStep::Failed
        },
        AtomicStep::Rename => if ok {
            AtomicStep::Done
        } else {
            AtomicStep::RemoveTemp
        },
        AtomicStep::RemoveTemp => AtomicStep::Failed,
        AtomicStep::Done => AtomicStep::Done,
        AtomicStep::Failed => AtomicStep::Failed,
    }
}

} // verus!
