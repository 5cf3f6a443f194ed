//! Which store a base URI names.
//!
//! `s3://` and `gs://` name a bucket in a cloud store, the word `memory`
//! names a store in memory, and any other text is the root of a directory
//! tree on the local disk.

use vstd::prelude::*;
use vstd::string::*;

verus! {

/// The store that a benchmark runs against.
#[derive(Debug, PartialEq, Eq)]
pub enum Backend {
    /// A bucket of Amazon S3.
    S3 { bucket: String },
    /// A bucket of Google Cloud Storage.
    Gcs { bucket: String },
    /// A store that lives in the memory of the process.
    Memory,
    /// The directory tree under `root` on the local disk.
    Local { root: String },
}

/// A `Backend` with its texts as sequences of characters.
pub enum BackendView {
    S3 { bucket: Seq<char> },
    Gcs { bucket: Seq<char> },
    Memory,
    Local { root: Seq<char> },
}

impl View for Backend {
    type V = BackendView;

    open spec fn view(&self) -> BackendView {
        match self {
            Backend::S3 { bucket } => BackendView::S3 { bucket: bucket@ },
            Backend::Gcs { bucket } => BackendView::Gcs { bucket: bucket@ },
            Backend::Memory => BackendView::Memory,
            Backend::Local { root } => BackendView::Local { root: root@ },
        }
    }
}

/// The prefix `s3://`.
pub open spec fn s3_prefix() -> Seq<char> {
    seq!['s', '3', ':', '/', '/']
}

/// The prefix `gs://`.
pub open spec fn gs_prefix() -> Seq<char> {
    seq!['g', 's', ':', '/', '/']
}

/// The word `memory`.
pub open spec fn memory_word() -> Seq<char> {
    seq!['m', 'e', 'm', 'o', 'r', 'y']
}

/// The store that `uri` names. The prefixes are tried in the order `s3://`,
/// `gs://`. The bucket of an S3 URI is what follows the prefix. The bucket
/// of a GCS URI is what follows the first four characters, so it begins with
/// the second `/` of the prefix.
pub open spec fn backend_for(uri: Seq<char>) -> BackendView {
    if s3_prefix().is_prefix_of(uri) {
        BackendView::S3 { bucket: uri.skip(5) }
    } else if gs_prefix().is_prefix_of(uri) {
        BackendView::Gcs { bucket: uri.skip(4) }
    } else if uri == memory_word() {
        BackendView::Memory
    } else {
        BackendView::Local { root: uri }
    }
}

/// Whether `text` begins with `prefix`.
pub fn starts_with(text: &str, prefix: &str) -> (yes: bool)
    ensures
        yes == prefix@.is_prefix_of(text@),
{
    let text_len: usize = text.unicode_len();
    let prefix_len: usize = prefix.unicode_len();
    if prefix_len > text_len {
        return false;
    }
    let mut i: usize = 0;
    while i < prefix_len
        invariant
            prefix_len == prefix@.len(),
            text_len == text@.len(),
            prefix_len <= text_len,
            i <= prefix_len,
            forall|k: int| 0 <= k < i ==> prefix@[k] == text@[k],
        decreases prefix_len - i,
    {
        if prefix.get_char(i) != text.get_char(i) {
            assert(prefix@[i as int] != text@.subrange(0, prefix@.len() as int)[i as int]);
            return false;
        }
        i = i + 1;
    }
    assert(prefix@ =~= text@.subrange(0, prefix@.len() as int));
    true
}

/// The text that follows the first `from` characters of `text`.
fn text_after(text: &str, from: usize) -> (rest: String)
    requires
        from <= text@.len(),
    ensures
        rest@ == text@.skip(from as int),
{
    let len: usize = text.unicode_len();
    let rest = String::from_str(text.substring_char(from, len));
    assert(rest@ =~= text@.skip(from as int));
    rest
}

/// Tells which store `base_uri` names.
pub fn select_backend(base_uri: &str) -> (backend: Backend)
    ensures
        backend@ == backend_for(base_uri@),
{
    proof {
        reveal_strlit("s3://");
        reveal_strlit("gs://");
        reveal_strlit("memory");
        assert("s3://"@ =~= s3_prefix());
        assert("gs://"@ =~= gs_prefix());
        assert("memory"@ =~= memory_word());
    }
    if starts_with(base_uri, "s3://") {
        Backend::S3 { bucket: text_after(base_uri, 5) }
    } else if starts_with(base_uri, "gs://") {
        Backend::Gcs { bucket: text_after(base_uri, 4) }
    } else if starts_with(base_uri, "memory") && base_uri.unicode_len() == 6 {
        assert(base_uri@ =~= memory_word());
        Backend::Memory
    } else {
        Backend::Local { root: String::from_str(base_uri) }
    }
}

} // verus!
