//! Blobs: contents that are named by their digest.

use vstd::prelude::*;
use vstd::string::*;

use crate::digest::sha256_hex;
use crate::domain::BlobRef;
use crate::text::{decimal_text, sorted_set, str_eq, strip_prefix, text2, text4, text6};

use super::error::{StorageError, StorageErrorView};

verus! {

/// How the reference of a blob begins.
pub const BLOB_REF_PREFIX: &'static str = "blob:sha256:";

/// The reference of some contents.
pub open spec fn reference_of(bytes: Seq<u8>) -> Seq<char> {
    BLOB_REF_PREFIX@ + file_name_of(bytes)
}

/// The name of the file that holds some contents.
pub open spec fn file_name_of(bytes: Seq<u8>) -> Seq<char> {
    crate::digest::hex_text(crate::digest::sha256(bytes))
}

/// The reference of some contents and the name of the file that holds them.
pub fn blob_ref_of(bytes: &[u8]) -> (r: (BlobRef, String))
    ensures
        r.0@ == reference_of(bytes@),
        r.1@ == file_name_of(bytes@),
{
    let hash = sha256_hex(bytes);
    let reference = text2(BLOB_REF_PREFIX, hash.as_str());
    (BlobRef::new(reference.as_str()), hash)
}

/// What is wrong with the size of a blob.
pub fn check_blob_size(size: usize, max_bytes: usize) -> (r: Result<(), StorageError>)
    ensures
        match r {
            Ok(()) => size <= max_bytes,
            Err(e) => size > max_bytes && e@ == StorageErrorView::Invariant(
                "blob size "@ + crate::text::decimal(size as nat) + " exceeds configured maximum "@
                    + crate::text::decimal(max_bytes as nat),
            ),
        },
{
    if size > max_bytes {
        let shown = decimal_text(size as u64);
        let limit = decimal_text(max_bytes as u64);
        return Err(
            StorageError::Invariant(
                text4("blob size ", shown.as_str(), " exceeds configured maximum ", limit.as_str()),
            ),
        );
    }
    Ok(())
}

/// The first blob of a batch that is too large.
pub open spec fn first_oversized(sizes: Seq<usize>, max_bytes: usize) -> Option<int>
    decreases sizes.len(),
{
    if sizes.len() == 0 {
        None
    } else {
        match first_oversized(sizes.drop_last(), max_bytes) {
            Some(i) => Some(i),
            None => if sizes.last() > max_bytes {
                Some(sizes.len() - 1)
            } else {
                None
            },
        }
    }
}

proof fn oversized_stays(sizes: Seq<usize>, max_bytes: usize, n: int)
    requires
        0 <= n <= sizes.len(),
        first_oversized(sizes.take(n), max_bytes) is Some,
    ensures
        first_oversized(sizes, max_bytes) == first_oversized(sizes.take(n), max_bytes),
    decreases sizes.len() - n,
{
    if n == sizes.len() {
        assert(sizes.take(n) =~= sizes);
    } else {
        assert(sizes.take(n + 1).drop_last() =~= sizes.take(n));
        oversized_stays(sizes, max_bytes, n + 1);
    }
}

/// Checks the sizes of a batch before any of it is written; the first blob that is too large
/// decides.
pub fn check_blob_batch(sizes: &[usize], max_bytes: usize) -> (r: Result<(), StorageError>)
    ensures
        match r {
            Ok(()) => first_oversized(sizes@, max_bytes) is None,
            Err(e) => first_oversized(sizes@, max_bytes) matches Some(i) && e@
                == StorageErrorView::Invariant(
                "blob at batch index "@ + crate::text::decimal(i as nat) + " has size "@
                    + crate::text::decimal(sizes@[i] as nat) + " exceeding configured maximum "@
                    + crate::text::decimal(max_bytes as nat),
            ),
        },
{
    let mut i: usize = 0;
    while i < sizes.len()
        invariant
            i <= sizes@.len(),
            first_oversized(sizes@.take(i as int), max_bytes) is None,
        decreases sizes@.len() - i,
    {
        assert(sizes@.take(i + 1).drop_last() =~= sizes@.take(i as int));
        if sizes[i] > max_bytes {
            proof {
                oversized_stays(sizes@, max_bytes, i + 1);
            }
            let at = decimal_text(i as u64);
            let size = decimal_text(sizes[i] as u64);
            let limit = decimal_text(max_bytes as u64);
            return Err(
                StorageError::Invariant(
                    text6(
                        "blob at batch index ",
                        at.as_str(),
                        " has size ",
                        size.as_str(),
                        " exceeding configured maximum ",
                        limit.as_str(),
                    ),
                ),
            );
        }
        i = i + 1;
    }
    assert(sizes@.take(i as int) =~= sizes@);
    Ok(())
}

/// A batch is taken only where every blob of it fits.
pub proof fn taken_batches_fit(sizes: Seq<usize>, max_bytes: usize)
    ensures
        first_oversized(sizes, max_bytes) is None <==> forall|i: int|
            0 <= i < sizes.len() ==> #[trigger] sizes[i] <= max_bytes,
    decreases sizes.len(),
{
    if sizes.len() > 0 {
        let init = sizes.drop_last();
        taken_batches_fit(init, max_bytes);
        if forall|i: int| 0 <= i < sizes.len() ==> #[trigger] sizes[i] <= max_bytes {
            assert forall|i: int| 0 <= i < init.len() implies #[trigger] init[i] <= max_bytes by {
                assert(sizes[i] == init[i]);
            }
            assert(sizes[sizes.len() - 1] <= max_bytes);
        }
        if first_oversized(sizes, max_bytes) is None {
            assert forall|i: int| 0 <= i < sizes.len() implies #[trigger] sizes[i] <= max_bytes by {
                if i < init.len() {
                    assert(init[i] == sizes[i]);
                }
            }
        }
    }
}

/// The files of a batch, each once and in ascending order.
pub fn unique_files(file_names: &Vec<String>) -> (r: Vec<String>)
    ensures
        crate::text::strings(r@) == crate::text::sorted_texts(
            crate::text::strings(file_names@).to_set(),
        ),
{
    sorted_set(file_names)
}

/// How many files each writer takes, given how many there are and how many can run at once: up to
/// eight writers share them evenly.
pub fn writer_chunk(files: usize, parallelism: usize) -> (r: usize)
    requires
        parallelism >= 1,
        files < usize::MAX - 8,
    ensures
        r >= 1,
        files >= 1 ==> ({
            let most = if parallelism < 8 {
                parallelism as int
            } else {
                8
            };
            let writers = if most < files {
                most
            } else {
                files as int
            };
            r == (files + writers - 1) / writers
        }),
        files == 0 ==> r == 1,
{
    let most: usize = if parallelism < 8 {
        parallelism
    } else {
        8
    };
    let shared: usize = if files > 1 {
        files
    } else {
        1
    };
    let writers: usize = if most < shared {
        most
    } else {
        shared
    };
    let chunk: usize = (files + writers - 1) / writers;
    proof {
        if files >= 1 {
            vstd::arithmetic::div_mod::lemma_div_is_ordered(
                writers as int,
                files + writers - 1,
                writers as int,
            );
            vstd::arithmetic::div_mod::lemma_div_by_self(writers as int);
        }
    }
    if chunk < 1 {
        1
    } else {
        chunk
    }
}

/// Whether a file holds the contents of one of the given references.
pub open spec fn is_referenced(refs: Seq<Seq<char>>, file: Seq<char>) -> bool {
    refs.contains(BLOB_REF_PREFIX@ + file)
}

fn file_is_referenced(refs: &Vec<String>, file: &str) -> (r: bool)
    ensures
        r == is_referenced(crate::text::strings(refs@), file@),
{
    let ghost all = crate::text::strings(refs@);
    let ghost wanted = BLOB_REF_PREFIX@ + file@;
    let mut i: usize = 0;
    while i < refs.len()
        invariant
            i <= refs@.len(),
            all == crate::text::strings(refs@),
            wanted == BLOB_REF_PREFIX@ + file@,
            forall|j: int| 0 <= j < i ==> #[trigger] all[j] != wanted,
        decreases refs@.len() - i,
    {
        assert(all[i as int] == refs@[i as int]@);
        match strip_prefix(refs[i].as_str(), BLOB_REF_PREFIX) {
            Some(hash) => {
                proof {
                    let n = BLOB_REF_PREFIX@.len() as int;
                    assert(all[i as int] =~= all[i as int].take(n) + all[i as int].skip(n));
                    if all[i as int] == wanted {
                        assert(wanted.skip(n) =~= file@);
                    }
                }
                if str_eq(hash, file) {
                    assert(all.contains(wanted));
                    return true;
                }
            },
            None => {
                proof {
                    if all[i as int] == wanted {
                        assert(wanted.take(BLOB_REF_PREFIX@.len() as int) =~= BLOB_REF_PREFIX@);
                    }
                }
            },
        }
        i = i + 1;
    }
    false
}

/// The files that no reference needs.
pub open spec fn orphans(refs: Seq<Seq<char>>, files: Seq<Seq<char>>) -> Seq<Seq<char>>
    decreases files.len(),
{
    if files.len() == 0 {
        Seq::empty()
    } else {
        let before = orphans(refs, files.drop_last());
        if is_referenced(refs, files.last()) {
            before
        } else {
            before.push(files.last())
        }
    }
}

/// The files that no reference needs, in the order in which they are listed.
pub fn orphan_files(refs: &Vec<String>, files: &Vec<String>) -> (r: Vec<String>)
    ensures
        crate::text::strings(r@) == orphans(
            crate::text::strings(refs@),
            crate::text::strings(files@),
        ),
{
    let ghost all = crate::text::strings(files@);
    let ghost held = crate::text::strings(refs@);
    let mut out: Vec<String> = Vec::new();
    let mut i: usize = 0;
    assert(crate::text::strings(out@) =~= Seq::empty());
    while i < files.len()
        invariant
            i <= files@.len(),
            all == crate::text::strings(files@),
            held == crate::text::strings(refs@),
            crate::text::strings(out@) == orphans(held, all.take(i as int)),
        decreases files@.len() - i,
    {
        proof {
            assert(all.take(i + 1).drop_last() =~= all.take(i as int));
            assert(all.take(i + 1).last() == files@[i as int]@);
        }
        let ghost before = out@;
        if !file_is_referenced(refs, files[i].as_str()) {
            out.push(files[i].clone());
            assert(crate::text::strings(out@) =~= crate::text::strings(before).push(
                files@[i as int]@,
            ));
        }
        i = i + 1;
    }
    assert(all.take(i as int) =~= all);
    out
}

/// The file of contents that are referred to is never an orphan.
pub proof fn referenced_contents_are_kept(
    refs: Seq<Seq<char>>,
    files: Seq<Seq<char>>,
    bytes: Seq<u8>,
)
    requires
        refs.contains(reference_of(bytes)),
    ensures
        !orphans(refs, files).contains(file_name_of(bytes)),
    decreases files.len(),
{
    if files.len() > 0 {
        let init = files.drop_last();
        referenced_contents_are_kept(refs, init, bytes);
        let before = orphans(refs, init);
        let now = orphans(refs, files);
        let name = file_name_of(bytes);
        if now.contains(name) {
            let i = choose|i: int| 0 <= i < now.len() && now[i] == name;
            if i < before.len() {
                assert(before[i] == name);
            } else {
                assert(now.last() == name);
            }
        }
    }
}

} // verus!
