//! The per-file task that a worker carries out, and the backend chosen once per run.

use crate::destination::{parse_destination, remote_syntax, split_at_first, count_char, Destination, DestinationError};
use crate::remote::{join_path, join_spec, parent_dir, parent_spec};
use crate::frame::{encode_frame, frame_bytes, header_fits, FrameHeader, HeaderView};
use crate::scan::ManifestEntry;
use vstd::prelude::*;

verus! {

/// Where a run writes, chosen once from the destination string.
#[derive(Debug, Clone)]
pub enum Backend {
    /// Frames written under a local directory.
    Local { root: String },
    /// Raw copies sent over one session to `ssh_dest` (`[user@]host`), under `root`. No
    /// frame is written there: the files travel uncompressed through the transport's own
    /// copy protocol, which checks their integrity in transit.
    RemoteShell { ssh_dest: String, root: String },
}

/// The backend that a destination string selects.
pub fn select_backend(destination: &str) -> (r: Result<Backend, DestinationError>)
    ensures
        !remote_syntax(destination@) ==> (r matches Ok(Backend::Local { root }) && root@
            == destination@),
        remote_syntax(destination@) ==> (r is Ok <==> count_char(destination@, ':') == 1),
        remote_syntax(destination@) && r is Ok ==> (r matches Ok(
            Backend::RemoteShell { ssh_dest, root },
        ) && split_at_first(destination@, ':', ssh_dest@, root@)),
{
    match parse_destination(destination) {
        Ok(Destination::Local { path }) => Ok(Backend::Local { root: path }),
        Ok(Destination::Remote { ssh_dest, path }) => Ok(Backend::RemoteShell { ssh_dest, root: path }),
        Err(e) => Err(e),
    }
}

/// One file to copy: where it is read, where it is written, and the directory that must
/// exist first.
#[derive(Debug, Clone)]
pub struct TransferTask {
    pub relative_path: String,
    pub source: String,
    pub target: String,
    pub target_dir: String,
}

/// The task for the file at `relative_path` below `source_root`, written below
/// `destination_root`.
pub fn plan_task(source_root: &str, destination_root: &str, relative_path: &str) -> (r:
    TransferTask)
    ensures
        r.relative_path@ == relative_path@,
        r.source@ == join_spec(source_root@, relative_path@),
        r.target@ == join_spec(destination_root@, relative_path@),
        r.target_dir@ == parent_spec(r.target@),
{
    let source = join_path(source_root, relative_path);
    let target = join_path(destination_root, relative_path);
    let target_dir = parent_dir(target.as_str());
    TransferTask { relative_path: String::from_str(relative_path), source, target, target_dir }
}

/// The header that frames a scanned file: its path, size and time, compressed when its
/// extension names a text format.
pub open spec fn header_of(e: ManifestEntry) -> HeaderView {
    HeaderView {
        path: e.relative_path@,
        size: e.size,
        modified_at: e.modified_at,
        compressed: e.compressible,
    }
}

/// The frame of a scanned file's content; `None` only for a path too long for the header.
pub fn frame_file(entry: &ManifestEntry, payload: &[u8]) -> (r: Option<Vec<u8>>)
    ensures
        r is Some <==> header_fits(header_of(*entry)),
        r matches Some(b) ==> b@ == frame_bytes(header_of(*entry), payload@),
{
    let path_len = entry.relative_path.as_str().as_bytes().len();
    if path_len > 4294967295 - 21 {
        return None;
    }
    let header = FrameHeader {
        relative_path: entry.relative_path.clone(),
        size: entry.size,
        modified_at: entry.modified_at,
        compressed: entry.compressible,
    };
    Some(encode_frame(&header, payload))
}

} // verus!
