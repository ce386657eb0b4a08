//! The content-addressed archive store and its digest rules.
//!
//! An artifact is a tar archive of a handler tree.  Its digest is the
//! hex-encoded SHA-256 of a canonical serialization of the archive's
//! entries: each file contributes `"file:"`, its path and its contents;
//! each directory contributes `"dir:"` and its path; other entry kinds
//! contribute nothing.  The store keeps one archive per digest and streams
//! it back out in fixed-size chunks.

use vstd::prelude::*;
use vstd::string::*;
use vstd::slice::{slice_subrange, slice_to_vec};
use crate::assoc::{
    assoc_map, distinct_keys, lemma_assoc_map_contains, lemma_assoc_map_index,
    lemma_assoc_map_push, lemma_distinct_push,
};
use crate::digest::{is_digest, spec_digest, digest_of};
use crate::paths::spec_join;

verus! {

/// Size of one streamed chunk: 64 KiB.
pub const CHUNK_SIZE: usize = 65536;

/// One entry of a tar archive, as far as the digest rules observe it.
pub enum TarEntryKind {
    File(Vec<u8>),
    Dir,
    Other,
}

pub struct TarEntry {
    pub path: String,
    pub kind: TarEntryKind,
}

/// The bytes `"file:"` (ASCII).
pub open spec fn file_prefix() -> Seq<u8> {
    seq![102u8, 105u8, 108u8, 101u8, 58u8]
}

/// The bytes `"dir:"` (ASCII).
pub open spec fn dir_prefix() -> Seq<u8> {
    seq![100u8, 105u8, 114u8, 58u8]
}

/// What one entry contributes to the canonical serialization.
pub open spec fn entry_bytes(e: TarEntry) -> Seq<u8> {
    match e.kind {
        TarEntryKind::File(content) => file_prefix() + vstd::utf8::encode_utf8(e.path@)
            + content@,
        TarEntryKind::Dir => dir_prefix() + vstd::utf8::encode_utf8(e.path@),
        TarEntryKind::Other => Seq::empty(),
    }
}

/// The canonical serialization of an archive: entry contributions in order.
pub open spec fn canonical_bytes(entries: Seq<TarEntry>) -> Seq<u8>
    decreases entries.len(),
{
    if entries.len() == 0 {
        Seq::empty()
    } else {
        canonical_bytes(entries.drop_last()) + entry_bytes(entries.last())
    }
}

/// Appends a byte slice to a vector.
fn push_bytes(out: &mut Vec<u8>, data: &[u8])
    ensures
        final(out)@ == old(out)@ + data@,
{
    let mut v = slice_to_vec(data);
    out.append(&mut v);
}

/// Appends the canonical contribution of one entry.
fn push_entry_bytes(out: &mut Vec<u8>, e: &TarEntry)
    ensures
        final(out)@ == old(out)@ + entry_bytes(*e),
{
    match &e.kind {
        TarEntryKind::File(content) => {
            out.push(102);
            out.push(105);
            out.push(108);
            out.push(101);
            out.push(58);
            let mut pb = e.path.as_str().as_bytes_vec();
            out.append(&mut pb);
            push_bytes(out, content.as_slice());
            proof {
                assert(final(out)@ =~= old(out)@ + entry_bytes(*e));
            }
        },
        TarEntryKind::Dir => {
            out.push(100);
            out.push(105);
            out.push(114);
            out.push(58);
            let mut pb = e.path.as_str().as_bytes_vec();
            out.append(&mut pb);
            proof {
                assert(final(out)@ =~= old(out)@ + entry_bytes(*e));
            }
        },
        TarEntryKind::Other => {
            proof {
                assert(final(out)@ =~= old(out)@ + entry_bytes(*e));
            }
        },
    }
}

/// Computes the canonical serialization of an archive's entries.
pub fn canonical_serialization(entries: &Vec<TarEntry>) -> (r: Vec<u8>)
    ensures
        r@ == canonical_bytes(entries@),
{
    let mut out: Vec<u8> = Vec::new();
    let mut i: usize = 0;
    while i < entries.len()
        invariant
            i <= entries@.len(),
            out@ == canonical_bytes(entries@.take(i as int)),
        decreases entries@.len() - i,
    {
        push_entry_bytes(&mut out, &entries[i]);
        proof {
            assert(entries@.take(i + 1).drop_last() =~= entries@.take(i as int));
            assert(entries@.take(i + 1).last() == entries@[i as int]);
        }
        i += 1;
    }
    proof {
        assert(entries@.take(entries@.len() as int) =~= entries@);
    }
    out
}

/// Computes the digest of an archive: the hex-encoded SHA-256 of the
/// canonical serialization of its entries.
pub fn get_digest(entries: &Vec<TarEntry>) -> (r: String)
    ensures
        r@ == spec_digest(canonical_bytes(entries@)),
        is_digest(r@),
{
    let data = canonical_serialization(entries);
    digest_of(data.as_slice())
}

/// Root directory of the registry service's storage.
pub open spec fn registry_root() -> Seq<char> {
    "/var/lib/noctiforge"@
}

/// The directory holding stored archives.
pub open spec fn registry_dir() -> Seq<char> {
    spec_join(registry_root(), "registry"@)
}

pub fn get_root_dir_path() -> (r: String)
    ensures
        r@ == registry_root(),
{
    String::from_str("/var/lib/noctiforge")
}

pub fn get_registry_dir_path() -> (r: String)
    ensures
        r@ == registry_dir(),
{
    let root = get_root_dir_path();
    crate::paths::join(root.as_str(), "registry")
}

/// The storage path of one archive: `{registry_dir}/{digest}.tar`.
pub fn get_registry_path(digest: &str) -> (r: String)
    ensures
        r@ == spec_join(registry_dir(), digest@) + ".tar"@,
{
    let dir = get_registry_dir_path();
    let mut p = crate::paths::join(dir.as_str(), digest);
    p.append(".tar");
    p
}

/// How many chunks a payload of `len` bytes yields.
pub open spec fn chunk_count(len: int, cs: int) -> int {
    (len + cs - 1) / cs
}

/// The `i`-th chunk of a payload.
pub open spec fn chunk_at(data: Seq<u8>, cs: int, i: int) -> Seq<u8> {
    data.subrange(
        i * cs,
        if (i + 1) * cs <= data.len() {
            (i + 1) * cs
        } else {
            data.len() as int
        },
    )
}

/// The chunking of a payload: consecutive pieces of at most `cs` bytes.
pub open spec fn chunk_seq(data: Seq<u8>, cs: int) -> Seq<Seq<u8>> {
    Seq::new(chunk_count(data.len() as int, cs) as nat, |i: int| chunk_at(data, cs, i))
}

/// The views of a vector of byte vectors.
pub open spec fn chunk_views(v: Seq<Vec<u8>>) -> Seq<Seq<u8>> {
    Seq::new(v.len(), |i: int| v[i]@)
}

/// A payload that fills `n` chunks of size `cs`, the last one partially,
/// has ceil(len / cs) == n.
proof fn lemma_chunk_count(len: int, cs: int, n: int)
    requires
        cs > 0,
        0 <= len,
        0 <= n,
        n * cs >= len,
        (n - 1) * cs < len || (n == 0 && len == 0),
    ensures
        chunk_count(len, cs) == n,
{
    let x = len + cs - 1;
    let rem = x - n * cs;
    assert((n - 1) * cs == n * cs - cs) by (nonlinear_arith);
    vstd::arithmetic::div_mod::lemma_fundamental_div_mod_converse(x, cs, n, rem);
}

/// Splits a payload into chunks of at most `chunk_size` bytes.
pub fn chunk_data(data: &[u8], chunk_size: usize) -> (r: Vec<Vec<u8>>)
    requires
        chunk_size > 0,
    ensures
        chunk_views(r@) == chunk_seq(data@, chunk_size as int),
        r@.len() == chunk_count(data@.len() as int, chunk_size as int),
        forall|i: int| 0 <= i < r@.len() ==> r@[i]@ == chunk_at(
            data@,
            chunk_size as int,
            i,
        ),
{
    let cs = chunk_size;
    let mut r: Vec<Vec<u8>> = Vec::new();
    let mut offset: usize = 0;
    proof {
        assert(r@.len() * cs == 0) by (nonlinear_arith)
            requires r@.len() == 0;
    }
    while offset < data.len()
        invariant
            cs == chunk_size > 0,
            offset <= data@.len(),
            offset == r@.len() * cs || (offset == data@.len() && data@.len() <= r@.len() * cs
                && (r@.len() as int - 1) * cs < data@.len()),
            forall|i: int| 0 <= i < r@.len() ==> r@[i]@ == chunk_at(data@, cs as int, i),
        decreases data@.len() - offset,
    {
        let ghost i = r@.len() as int;
        let ghost len = data@.len() as int;
        proof {
            assert(offset == i * cs);
            assert((i + 1) * cs == i * cs + cs) by (nonlinear_arith);
        }
        let end = if data.len() - offset < cs {
            data.len()
        } else {
            offset + cs
        };
        let piece = slice_to_vec(slice_subrange(data, offset, end));
        proof {
            assert(piece@ == chunk_at(data@, cs as int, i));
        }
        r.push(piece);
        offset = end;
    }
    proof {
        let n = r@.len() as int;
        let len = data@.len() as int;
        if len == 0 {
            assert(n == 0 || offset == 0);
            assert(n * cs == 0 ==> n == 0) by (nonlinear_arith)
                requires cs > 0, n >= 0;
            lemma_chunk_count(len, cs as int, 0);
        } else {
            assert(offset == data@.len());
            if offset == n * cs {
                assert((n - 1) * cs == n * cs - cs) by (nonlinear_arith);
                lemma_chunk_count(len, cs as int, n);
            } else {
                lemma_chunk_count(len, cs as int, n);
            }
        }
        assert(chunk_views(r@) =~= chunk_seq(data@, cs as int));
    }
    r
}

/// The concatenation of a sequence of byte sequences.
pub open spec fn concat_bytes(chunks: Seq<Seq<u8>>) -> Seq<u8>
    decreases chunks.len(),
{
    if chunks.len() == 0 {
        Seq::empty()
    } else {
        concat_bytes(chunks.drop_last()) + chunks.last()
    }
}

/// Reassembles a streamed payload from its chunks.
pub fn concat_chunks(chunks: &Vec<Vec<u8>>) -> (r: Vec<u8>)
    ensures
        r@ == concat_bytes(chunk_views(chunks@)),
{
    let mut r: Vec<u8> = Vec::new();
    let mut i: usize = 0;
    while i < chunks.len()
        invariant
            i <= chunks@.len(),
            r@ == concat_bytes(chunk_views(chunks@).take(i as int)),
        decreases chunks@.len() - i,
    {
        push_bytes(&mut r, chunks[i].as_slice());
        proof {
            let dv = chunk_views(chunks@);
            assert(dv.take(i + 1).drop_last() =~= dv.take(i as int));
            assert(dv.take(i + 1).last() == dv[i as int]);
            assert(dv[i as int] == chunks@[i as int]@);
        }
        i += 1;
    }
    proof {
        let dv = chunk_views(chunks@);
        assert(dv.take(dv.len() as int) =~= dv);
    }
    r
}

/// Chunking then reassembling returns the payload unchanged: for any data
/// and any positive chunk size, the concatenation of the chunks is the data.
pub proof fn law_chunk_concat_identity(data: Seq<u8>, cs: int)
    requires
        cs > 0,
    ensures
        concat_bytes(chunk_seq(data, cs)) == data,
{
    let len = data.len() as int;
    let n = chunk_count(len, cs);
    vstd::arithmetic::div_mod::lemma_div_is_ordered(0, len + cs - 1, cs);
    assert(n >= 0);
    vstd::arithmetic::div_mod::lemma_fundamental_div_mod(len + cs - 1, cs);
    vstd::arithmetic::div_mod::lemma_mod_bound(len + cs - 1, cs);
    assert(n * cs == cs * n) by (nonlinear_arith);
    assert(n * cs >= len);
    lemma_concat_chunks_prefix(data, cs, n);
    assert(chunk_seq(data, cs).take(n) =~= chunk_seq(data, cs));
    assert(data.take(len) =~= data);
}

/// The first `n` chunks concatenate to the first `min(n * cs, len)` bytes.
proof fn lemma_concat_chunks_prefix(data: Seq<u8>, cs: int, n: int)
    requires
        cs > 0,
        0 <= n,
        n <= chunk_count(data.len() as int, cs),
    ensures
        concat_bytes(chunk_seq(data, cs).take(n)) =~= data.take(
            if n * cs <= data.len() {
                n * cs
            } else {
                data.len() as int
            },
        ),
    decreases n,
{
    let len = data.len() as int;
    let count = chunk_count(len, cs);
    let upto = if n * cs <= len { n * cs } else { len };
    if n == 0 {
        assert(n * cs == 0) by (nonlinear_arith)
            requires n == 0;
        assert(chunk_seq(data, cs).take(0) =~= Seq::<Seq<u8>>::empty());
        assert(data.take(0) =~= Seq::<u8>::empty());
    } else {
        lemma_concat_chunks_prefix(data, cs, n - 1);
        assert((n - 1) * cs == n * cs - cs) by (nonlinear_arith);
        // chunk n - 1 starts strictly inside the payload
        assert((n - 1) * cs < len) by {
            vstd::arithmetic::div_mod::lemma_fundamental_div_mod(len + cs - 1, cs);
            vstd::arithmetic::div_mod::lemma_mod_bound(len + cs - 1, cs);
            assert(count * cs == cs * count) by (nonlinear_arith);
            assert(count * cs <= len + cs - 1);
            assert((n - 1) * cs <= (count - 1) * cs) by (nonlinear_arith)
                requires cs > 0, n <= count;
            assert((count - 1) * cs == count * cs - cs) by (nonlinear_arith);
        }
        let pupto = if (n - 1) * cs <= len { (n - 1) * cs } else { len };
        assert(pupto == (n - 1) * cs);
        let cseq = chunk_seq(data, cs);
        assert(cseq.take(n).drop_last() =~= cseq.take(n - 1));
        assert(cseq.take(n).last() == chunk_at(data, cs, n - 1));
        assert(concat_bytes(cseq.take(n)) == concat_bytes(cseq.take(n - 1)) + chunk_at(
            data,
            cs,
            n - 1,
        ));
        assert(concat_bytes(cseq.take(n - 1)) == data.take(pupto));
        assert(data.take(pupto) + chunk_at(data, cs, n - 1) =~= data.take(upto));
        assert(concat_bytes(cseq.take(n)) =~= data.take(upto));
    }
}

/// The archive store: one tar payload per digest.
pub struct LocalBackend {
    stored: Vec<(String, Vec<u8>)>,
}

impl View for LocalBackend {
    type V = Map<Seq<char>, Vec<u8>>;

    closed spec fn view(&self) -> Map<Seq<char>, Vec<u8>> {
        assoc_map(self.stored@)
    }
}

/// The outcome of a push: rejected, stored anew, or already present.
pub enum PushOutcome {
    RejectedEmpty,
    RejectedInvalidTar,
    Stored { digest: String },
    AlreadyStored { digest: String },
}

impl LocalBackend {
    pub closed spec fn wf(&self) -> bool {
        distinct_keys(self.stored@)
    }

    pub fn new() -> (r: LocalBackend)
        ensures
            r.wf(),
            r@ == Map::<Seq<char>, Vec<u8>>::empty(),
    {
        LocalBackend { stored: Vec::new() }
    }

    /// The index of a stored digest, if any.
    fn find_index(&self, digest: &str) -> (r: Option<usize>)
        ensures
            match r {
                Some(i) => i < self.stored@.len() && self.stored@[i as int].0@ == digest@,
                None => forall|i: int|
                    0 <= i < self.stored@.len() ==> self.stored@[i].0@ != digest@,
            },
    {
        let key: String = digest.to_owned();
        let n = self.stored.len();
        let mut i: usize = 0;
        while i < n
            invariant
                i <= n,
                n == self.stored@.len(),
                key@ == digest@,
                forall|j: int| 0 <= j < i ==> self.stored@[j].0@ != digest@,
            decreases n - i,
        {
            if self.stored[i].0 == key {
                return Some(i);
            }
            i += 1;
        }
        None
    }

    /// Accepts a pushed archive.  `entries` is the parse of `data` as a tar
    /// archive, or absent when `data` is not one.  An empty or unparsable
    /// payload is rejected and nothing changes; a payload whose digest is
    /// already stored is acknowledged and nothing changes; otherwise the
    /// payload is stored under its digest.
    pub fn push(&mut self, data: &Vec<u8>, entries: Option<&Vec<TarEntry>>) -> (r: PushOutcome)
        requires
            old(self).wf(),
        ensures
            final(self).wf(),
            data@.len() == 0 ==> r is RejectedEmpty && final(self)@ == old(self)@,
            data@.len() > 0 && entries is None ==> r is RejectedInvalidTar && final(self)@
                == old(self)@,
            data@.len() > 0 && entries is Some ==> {
                let d = spec_digest(canonical_bytes(entries.unwrap()@));
                if old(self)@.contains_key(d) {
                    &&& r matches PushOutcome::AlreadyStored { digest } && digest@ == d
                    &&& final(self)@ == old(self)@
                } else {
                    &&& r matches PushOutcome::Stored { digest } && digest@ == d
                    &&& final(self)@.contains_key(d)
                    &&& final(self)@[d]@ == data@
                    &&& forall|k: Seq<char>| k != d ==> final(self)@.contains_key(k)
                        == old(self)@.contains_key(k)
                    &&& forall|k: Seq<char>| k != d && old(self)@.contains_key(k)
                        ==> final(self)@[k] == old(self)@[k]
                }
            },
    {
        if data.len() == 0 {
            return PushOutcome::RejectedEmpty;
        }
        match entries {
            None => PushOutcome::RejectedInvalidTar,
            Some(es) => {
                let digest = get_digest(es);
                let idx = self.find_index(digest.as_str());
                let ghost s0 = self.stored@;
                match idx {
                    Some(i) => {
                        proof {
                            lemma_assoc_map_contains(s0, digest@);
                        }
                        PushOutcome::AlreadyStored { digest }
                    },
                    None => {
                        proof {
                            lemma_assoc_map_contains(s0, digest@);
                        }
                        let stored_digest = digest.clone();
                        let payload = slice_to_vec(data.as_slice());
                        self.stored.push((stored_digest, payload));
                        proof {
                            lemma_distinct_push(s0, self.stored@.last());
                            lemma_assoc_map_push(s0, self.stored@.last());
                        }
                        PushOutcome::Stored { digest }
                    },
                }
            },
        }
    }

    /// Streams a stored archive back out, chunked.  Absent digests yield
    /// nothing.
    pub fn pull(&self, digest: &str) -> (r: Option<Vec<Vec<u8>>>)
        requires
            self.wf(),
        ensures
            r is Some <==> self@.contains_key(digest@),
            match r {
                Some(chunks) => chunk_views(chunks@) == chunk_seq(
                    self@[digest@]@,
                    CHUNK_SIZE as int,
                ),
                None => true,
            },
    {
        let idx = self.find_index(digest);
        match idx {
            Some(i) => {
                proof {
                    lemma_assoc_map_contains(self.stored@, digest@);
                    lemma_assoc_map_index(self.stored@, i as int);
                }
                Some(chunk_data(self.stored[i].1.as_slice(), CHUNK_SIZE))
            },
            None => {
                proof {
                    lemma_assoc_map_contains(self.stored@, digest@);
                }
                None
            },
        }
    }
}

} // verus!
