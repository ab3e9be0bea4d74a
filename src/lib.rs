//! Content-addressed directory synchronisation: manifests of file fingerprints,
//! the difference between two manifests, archives of the files to send, the
//! request framing of the exchange, and the job queue that serves connections.

mod archive;
mod builder;
mod diff;
mod fingerprint;
mod json;
mod manifest;
mod pool;
mod protocol;

pub use archive::{
    ArchiveError, MAX_ENTRY_BYTES, MAX_NAME_BYTES, SourceFile, admitted, archive, archived_entries,
    entry_names, zip_archive_bytes,
};
pub use builder::{
    FoundFile, build_manifest, built, entry_of, included, keys_distinct, law_build_deterministic,
    law_build_keys,
    law_flat_build_is_shallow, law_recursive_build_covers, lists_children, normalize_path,
    normalized,
};
pub use diff::{
    diff, diff_paths, law_diff_changed_entry, law_diff_extra_path, law_diff_self_empty,
    missing_paths, paths_view, stale_paths,
};
pub use fingerprint::{fingerprint, is_lower_hex_digit, sha256_hex};
pub use json::{
    ManifestError, all_strings, json_object_members, json_object_text, manifest_from_members,
    manifest_to_json, members_manifest, members_outcome, members_view, parse_manifest,
};
pub use manifest::{Manifest, entries_view, has_path, paths_unique, upsert};
pub use pool::{Claim, JobQueue, law_drained_queue_started_all};
pub use protocol::{
    ManifestRequest, TransferError, frame_manifest, manifest_of_text, plan_transfer, split_uri,
};
