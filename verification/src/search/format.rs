//! The on-disk format of the sparse vector index: a little-endian,
//! length-prefixed binary layout.
//!
//! ```text
//! header:      u32 magic = 0x56454354 ("VECT"), u32 version = 1,
//!              u32 vocab_size, u32 doc_count
//! vocabulary:  per term: u32 byte length, UTF-8 bytes
//! documents:   per doc: qualified_name, name, label, file_path (each as a
//!              term is), u32 nnz, then nnz times (u32 term_id, f32 weight)
//! ```
//!
//! Weights are kept here as the bit patterns of their `f32` values. Lengths
//! and counts are written as `u32` (truncated, like `as u32`). Reading
//! stops after the last document; bytes after it are ignored.

use vstd::prelude::*;
use vstd::arithmetic::div_mod::{lemma_fundamental_div_mod, lemma_div_denominator};

verus! {

/// The file magic, "VECT".
pub const VECTOR_MAGIC: u32 = 0x56454354;
/// The format version.
pub const VECTOR_VERSION: u32 = 1;

/// The UTF-8 encoding of one char: one byte below U+0080, two below
/// U+0800, three below U+10000, four above.
pub open spec fn utf8_char(c: char) -> Seq<u8> {
    let u = c as u32;
    if u < 0x80 {
        seq![u as u8]
    } else if u < 0x800 {
        seq![(0xC0 + u / 64) as u8, (0x80 + u % 64) as u8]
    } else if u < 0x10000 {
        seq![(0xE0 + u / 4096) as u8, (0x80 + (u / 64) % 64) as u8, (0x80 + u % 64) as u8]
    } else {
        seq![(0xF0 + u / 262144) as u8, (0x80 + (u / 4096) % 64) as u8, (0x80 + (u / 64) % 64) as u8,
            (0x80 + u % 64) as u8]
    }
}

/// The UTF-8 encoding of a string, char by char (what `str::as_bytes`
/// gives).
pub open spec fn utf8_encode(s: Seq<char>) -> Seq<u8>
    decreases s.len(),
{
    if s.len() == 0 { Seq::empty() } else { utf8_encode(s.drop_last()) + utf8_char(s.last()) }
}

/// A string's UTF-8 encoding takes at most four bytes per char.
pub proof fn lemma_utf8_len(s: Seq<char>)
    ensures
        utf8_encode(s).len() <= 4 * s.len(),
    decreases s.len(),
{
    if s.len() > 0 {
        lemma_utf8_len(s.drop_last());
    }
}

/// Calls `str::as_bytes`: the UTF-8 encoding of `s`.
#[verifier::external_body]
fn str_utf8_bytes(s: &str) -> (r: Vec<u8>)
    ensures
        r@ == utf8_encode(s@),
{
    s.as_bytes().to_vec()
}

/// No other string has the UTF-8 encoding of `s`.
pub open spec fn utf8_unique(s: Seq<char>) -> bool {
    forall|t: Seq<char>| #[trigger] utf8_encode(t) == utf8_encode(s) ==> t == s
}

/// Calls `String::from_utf8`: the string whose UTF-8 encoding the bytes
/// are (a UTF-8 byte sequence encodes exactly one string, so it is the only
/// one), or `None` when they are not valid UTF-8 (no string encodes to
/// them).
#[verifier::external_body]
fn string_from_utf8(b: Vec<u8>) -> (r: Option<String>)
    ensures
        match r {
            Some(s) => utf8_encode(s@) == b@ && utf8_unique(s@),
            None => forall|t: Seq<char>| #[trigger] utf8_encode(t) != b@,
        },
{
    String::from_utf8(b).ok()
}

/// A document of the index; weights as `f32` bit patterns.
pub struct VectorDoc {
    pub qualified_name: String,
    pub name: String,
    pub label: String,
    pub file_path: String,
    /// `(term_id, weight bits)`, sorted by term id.
    pub terms: Vec<(u32, u32)>,
}

/// The index: the documents and the sorted vocabulary (term `i` has id `i`).
pub struct VectorIndex {
    pub docs: Vec<VectorDoc>,
    pub vocabulary: Vec<String>,
}

/// Why bytes are not an index.
#[derive(Clone, Copy, PartialEq, Eq, Structural)]
pub enum DecodeError {
    /// The bytes end inside a `u32`.
    TruncatedU32,
    /// The bytes end inside a string.
    TruncatedString,
    /// A string's bytes are not UTF-8.
    InvalidUtf8,
    /// The file does not start with the magic; the value found.
    BadMagic(u32),
    /// The version is not 1; the value found.
    UnsupportedVersion(u32),
}

/// A document as bytes and numbers.
pub type DocBytes = (Seq<u8>, Seq<u8>, Seq<u8>, Seq<u8>, Seq<(u32, u32)>);

/// An index as bytes and numbers: the vocabulary, then the documents.
pub type IndexBytes = (Seq<Seq<u8>>, Seq<DocBytes>);

// ---------------------------------------------------------------------------
// Writing
// ---------------------------------------------------------------------------

/// `v` little-endian.
pub open spec fn le32(v: u32) -> Seq<u8> {
    seq![(v % 256) as u8, ((v / 256) % 256) as u8, ((v / 65536) % 256) as u8, (v / 16777216) as u8]
}

/// A length-prefixed byte string.
pub open spec fn enc_str(s: Seq<u8>) -> Seq<u8> {
    le32(s.len() as u32) + s
}

pub open spec fn enc_strs(v: Seq<Seq<u8>>) -> Seq<u8>
    decreases v.len(),
{
    if v.len() == 0 { Seq::empty() } else { enc_strs(v.drop_last()) + enc_str(v.last()) }
}

pub open spec fn enc_terms(t: Seq<(u32, u32)>) -> Seq<u8>
    decreases t.len(),
{
    if t.len() == 0 { Seq::empty() } else { enc_terms(t.drop_last()) + le32(t.last().0) + le32(t.last().1) }
}

pub open spec fn enc_doc(d: DocBytes) -> Seq<u8> {
    enc_str(d.0) + enc_str(d.1) + enc_str(d.2) + enc_str(d.3) + le32(d.4.len() as u32) + enc_terms(d.4)
}

pub open spec fn enc_docs(v: Seq<DocBytes>) -> Seq<u8>
    decreases v.len(),
{
    if v.len() == 0 { Seq::empty() } else { enc_docs(v.drop_last()) + enc_doc(v.last()) }
}

/// The bytes of a whole index.
pub open spec fn enc_index(ix: IndexBytes) -> Seq<u8> {
    le32(VECTOR_MAGIC) + le32(VECTOR_VERSION) + le32(ix.0.len() as u32) + le32(ix.1.len() as u32)
        + enc_strs(ix.0) + enc_docs(ix.1)
}

pub open spec fn doc_bytes(d: VectorDoc) -> DocBytes {
    (utf8_encode(d.qualified_name@), utf8_encode(d.name@), utf8_encode(d.label@), utf8_encode(d.file_path@), d.terms@)
}

/// Each string of `d` is the only one with its encoding.
pub open spec fn doc_unique(d: VectorDoc) -> bool {
    utf8_unique(d.qualified_name@) && utf8_unique(d.name@) && utf8_unique(d.label@) && utf8_unique(d.file_path@)
}

/// Each string of `ix` is the only one with its encoding.
pub open spec fn index_unique(ix: VectorIndex) -> bool {
    &&& forall|i: int| 0 <= i < ix.vocabulary@.len() ==> utf8_unique(#[trigger] ix.vocabulary@[i]@)
    &&& forall|i: int| 0 <= i < ix.docs@.len() ==> doc_unique(#[trigger] ix.docs@[i])
}

pub open spec fn index_bytes(ix: VectorIndex) -> IndexBytes {
    (ix.vocabulary@.map_values(|s: String| utf8_encode(s@)), ix.docs@.map_values(|d: VectorDoc| doc_bytes(d)))
}

/// Appends `v` little-endian.
pub fn write_u32(out: &mut Vec<u8>, v: u32)
    ensures
        final(out)@ == old(out)@ + le32(v),
{
    out.push((v % 256) as u8);
    out.push(((v / 256) % 256) as u8);
    out.push(((v / 65536) % 256) as u8);
    out.push((v / 16777216) as u8);
    proof {
        assert(out@ =~= old(out)@ + le32(v));
    }
}

fn append_bytes(out: &mut Vec<u8>, b: &Vec<u8>)
    ensures
        final(out)@ == old(out)@ + b@,
{
    let mut i: usize = 0;
    while i < b.len()
        invariant
            i <= b@.len(),
            out@ == old(out)@ + b@.take(i as int),
        decreases b@.len() - i,
    {
        out.push(b[i]);
        i += 1;
        proof {
            assert(out@ =~= old(out)@ + b@.take(i as int));
        }
    }
    proof {
        assert(b@.take(b@.len() as int) =~= b@);
    }
}

/// Appends a length-prefixed UTF-8 string.
pub fn write_string(out: &mut Vec<u8>, s: &str)
    ensures
        final(out)@ == old(out)@ + enc_str(utf8_encode(s@)),
{
    let bytes = str_utf8_bytes(s);
    write_u32(out, bytes.len() as u32);
    append_bytes(out, &bytes);
    proof {
        assert(out@ =~= old(out)@ + enc_str(utf8_encode(s@)));
    }
}

fn write_doc(out: &mut Vec<u8>, d: &VectorDoc)
    ensures
        final(out)@ == old(out)@ + enc_doc(doc_bytes(*d)),
{
    write_string(out, d.qualified_name.as_str());
    write_string(out, d.name.as_str());
    write_string(out, d.label.as_str());
    write_string(out, d.file_path.as_str());
    write_u32(out, d.terms.len() as u32);
    let ghost base = out@;
    let mut i: usize = 0;
    while i < d.terms.len()
        invariant
            i <= d.terms@.len(),
            out@ == base + enc_terms(d.terms@.take(i as int)),
        decreases d.terms@.len() - i,
    {
        let (id, w) = d.terms[i];
        write_u32(out, id);
        write_u32(out, w);
        proof {
            assert(d.terms@.take(i + 1).drop_last() =~= d.terms@.take(i as int));
            assert(d.terms@.take(i + 1).last() == d.terms@[i as int]);
            assert(out@ =~= base + enc_terms(d.terms@.take(i + 1)));
        }
        i += 1;
    }
    proof {
        assert(d.terms@.take(d.terms@.len() as int) =~= d.terms@);
        assert(out@ =~= old(out)@ + enc_doc(doc_bytes(*d)));
    }
}

/// The bytes of an index.
pub fn encode_index(ix: &VectorIndex) -> (r: Vec<u8>)
    ensures
        r@ == enc_index(index_bytes(*ix)),
{
    let mut out: Vec<u8> = Vec::new();
    write_u32(&mut out, VECTOR_MAGIC);
    write_u32(&mut out, VECTOR_VERSION);
    write_u32(&mut out, ix.vocabulary.len() as u32);
    write_u32(&mut out, ix.docs.len() as u32);
    let ghost ib = index_bytes(*ix);
    let ghost base = out@;
    let mut i: usize = 0;
    while i < ix.vocabulary.len()
        invariant
            i <= ix.vocabulary@.len(),
            ib == index_bytes(*ix),
            out@ == base + enc_strs(ib.0.take(i as int)),
        decreases ix.vocabulary@.len() - i,
    {
        write_string(&mut out, ix.vocabulary[i].as_str());
        proof {
            assert(ib.0.take(i + 1).drop_last() =~= ib.0.take(i as int));
            assert(ib.0.take(i + 1).last() == utf8_encode(ix.vocabulary@[i as int]@));
            assert(out@ =~= base + enc_strs(ib.0.take(i + 1)));
        }
        i += 1;
    }
    proof {
        assert(ib.0.take(ib.0.len() as int) =~= ib.0);
    }
    let ghost base2 = out@;
    let mut i: usize = 0;
    while i < ix.docs.len()
        invariant
            i <= ix.docs@.len(),
            ib == index_bytes(*ix),
            out@ == base2 + enc_docs(ib.1.take(i as int)),
        decreases ix.docs@.len() - i,
    {
        write_doc(&mut out, &ix.docs[i]);
        proof {
            assert(ib.1.take(i + 1).drop_last() =~= ib.1.take(i as int));
            assert(ib.1.take(i + 1).last() == doc_bytes(ix.docs@[i as int]));
            assert(out@ =~= base2 + enc_docs(ib.1.take(i + 1)));
        }
        i += 1;
    }
    proof {
        assert(ib.1.take(ib.1.len() as int) =~= ib.1);
        assert(out@ =~= enc_index(ib));
    }
    out
}

// ---------------------------------------------------------------------------
// Reading
// ---------------------------------------------------------------------------

/// The little-endian value of the four bytes at `p`.
pub open spec fn le_value(b: Seq<u8>, p: int) -> u32 {
    (b[p] + 256 * b[p + 1] + 65536 * b[p + 2] + 16777216 * b[p + 3]) as u32
}

/// Reads a `u32` at `p`: the value and the position after it.
pub open spec fn rd32(b: Seq<u8>, p: int) -> Result<(u32, int), DecodeError> {
    if 0 <= p && p + 4 <= b.len() {
        Ok((le_value(b, p), p + 4))
    } else {
        Err(DecodeError::TruncatedU32)
    }
}

/// Some string has these bytes as its UTF-8 encoding.
pub open spec fn utf8_valid(s: Seq<u8>) -> bool {
    exists|t: Seq<char>| #[trigger] utf8_encode(t) == s
}

/// Reads a length-prefixed UTF-8 string at `p`.
pub open spec fn rd_str(b: Seq<u8>, p: int) -> Result<(Seq<u8>, int), DecodeError> {
    match rd32(b, p) {
        Err(e) => Err(e),
        Ok((n, q)) => if q + n <= b.len() {
            if utf8_valid(b.subrange(q, q + n)) {
                Ok((b.subrange(q, q + n), q + n))
            } else {
                Err(DecodeError::InvalidUtf8)
            }
        } else {
            Err(DecodeError::TruncatedString)
        },
    }
}

/// Reads `n` strings from `p` on.
pub open spec fn rd_strs(b: Seq<u8>, p: int, n: nat) -> Result<(Seq<Seq<u8>>, int), DecodeError>
    decreases n,
{
    if n == 0 {
        Ok((Seq::empty(), p))
    } else {
        match rd_strs(b, p, (n - 1) as nat) {
            Err(e) => Err(e),
            Ok((v, q)) => match rd_str(b, q) {
                Err(e) => Err(e),
                Ok((s, q2)) => Ok((v.push(s), q2)),
            },
        }
    }
}

/// Reads `n` `(term id, weight bits)` pairs from `p` on.
pub open spec fn rd_terms(b: Seq<u8>, p: int, n: nat) -> Result<(Seq<(u32, u32)>, int), DecodeError>
    decreases n,
{
    if n == 0 {
        Ok((Seq::empty(), p))
    } else {
        match rd_terms(b, p, (n - 1) as nat) {
            Err(e) => Err(e),
            Ok((v, q)) => match rd32(b, q) {
                Err(e) => Err(e),
                Ok((id, q1)) => match rd32(b, q1) {
                    Err(e) => Err(e),
                    Ok((w, q2)) => Ok((v.push((id, w)), q2)),
                },
            },
        }
    }
}

/// Reads one document at `p`.
pub open spec fn rd_doc(b: Seq<u8>, p: int) -> Result<(DocBytes, int), DecodeError> {
    match rd_str(b, p) {
        Err(e) => Err(e),
        Ok((qn, p1)) => match rd_str(b, p1) {
            Err(e) => Err(e),
            Ok((name, p2)) => match rd_str(b, p2) {
                Err(e) => Err(e),
                Ok((label, p3)) => match rd_str(b, p3) {
                    Err(e) => Err(e),
                    Ok((fp, p4)) => match rd32(b, p4) {
                        Err(e) => Err(e),
                        Ok((nnz, p5)) => match rd_terms(b, p5, nnz as nat) {
                            Err(e) => Err(e),
                            Ok((terms, p6)) => Ok(((qn, name, label, fp, terms), p6)),
                        },
                    },
                },
            },
        },
    }
}

/// Reads `n` documents from `p` on.
pub open spec fn rd_docs(b: Seq<u8>, p: int, n: nat) -> Result<(Seq<DocBytes>, int), DecodeError>
    decreases n,
{
    if n == 0 {
        Ok((Seq::empty(), p))
    } else {
        match rd_docs(b, p, (n - 1) as nat) {
            Err(e) => Err(e),
            Ok((v, q)) => match rd_doc(b, q) {
                Err(e) => Err(e),
                Ok((d, q2)) => Ok((v.push(d), q2)),
            },
        }
    }
}

/// Reads a whole index: the magic, the version, the counts, the
/// vocabulary and the documents, each in turn.
pub open spec fn rd_index(b: Seq<u8>) -> Result<IndexBytes, DecodeError> {
    match rd32(b, 0) {
        Err(e) => Err(e),
        Ok((magic, p1)) => if magic != VECTOR_MAGIC {
            Err(DecodeError::BadMagic(magic))
        } else {
            match rd32(b, p1) {
                Err(e) => Err(e),
                Ok((version, p2)) => if version != VECTOR_VERSION {
                    Err(DecodeError::UnsupportedVersion(version))
                } else {
                    match rd32(b, p2) {
                        Err(e) => Err(e),
                        Ok((vocab_size, p3)) => match rd32(b, p3) {
                            Err(e) => Err(e),
                            Ok((doc_count, p4)) => match rd_strs(b, p4, vocab_size as nat) {
                                Err(e) => Err(e),
                                Ok((vocab, p5)) => match rd_docs(b, p5, doc_count as nat) {
                                    Err(e) => Err(e),
                                    Ok((docs, _p6)) => Ok((vocab, docs)),
                                },
                            },
                        },
                    }
                },
            }
        },
    }
}

/// Reads the little-endian `u32` at `p`.
pub fn read_u32(b: &Vec<u8>, p: usize) -> (r: Result<(u32, usize), DecodeError>)
    ensures
        match r {
            Ok((v, q)) => rd32(b@, p as int) == Ok::<(u32, int), DecodeError>((v, q as int)),
            Err(e) => rd32(b@, p as int) == Err::<(u32, int), DecodeError>(e),
        },
{
    if p > b.len() || b.len() - p < 4 {
        return Err(DecodeError::TruncatedU32);
    }
    let v: u32 = (b[p] as u32) + 256 * (b[p + 1] as u32) + 65536 * (b[p + 2] as u32) + 16777216 * (b[p + 3] as u32);
    Ok((v, p + 4))
}

fn copy_range(b: &Vec<u8>, from: usize, to: usize) -> (r: Vec<u8>)
    requires
        from <= to <= b@.len(),
    ensures
        r@ == b@.subrange(from as int, to as int),
{
    let mut out: Vec<u8> = Vec::new();
    let mut i = from;
    while i < to
        invariant
            from <= i <= to,
            to <= b@.len(),
            out@ == b@.subrange(from as int, i as int),
        decreases to - i,
    {
        out.push(b[i]);
        i += 1;
        proof {
            assert(out@ =~= b@.subrange(from as int, i as int));
        }
    }
    out
}

/// Reads the length-prefixed UTF-8 string at `p`.
pub fn read_string(b: &Vec<u8>, p: usize) -> (r: Result<(String, usize), DecodeError>)
    ensures
        match r {
            Ok((s, q)) => rd_str(b@, p as int) == Ok::<(Seq<u8>, int), DecodeError>((utf8_encode(s@), q as int))
                && utf8_unique(s@),
            Err(e) => rd_str(b@, p as int) == Err::<(Seq<u8>, int), DecodeError>(e),
        },
{
    let (n, q) = read_u32(b, p)?;
    if q > b.len() || ((b.len() - q) as u64) < (n as u64) {
        return Err(DecodeError::TruncatedString);
    }
    let end = q + (n as usize);
    let bytes = copy_range(b, q, end);
    match string_from_utf8(bytes) {
        Some(s) => {
            proof {
                assert(utf8_valid(b@.subrange(q as int, end as int)));
            }
            Ok((s, end))
        },
        None => {
            proof {
                assert(!utf8_valid(b@.subrange(q as int, end as int)));
            }
            Err(DecodeError::InvalidUtf8)
        },
    }
}

fn read_terms(b: &Vec<u8>, p: usize, n: u32) -> (r: Result<(Vec<(u32, u32)>, usize), DecodeError>)
    ensures
        match r {
            Ok((t, q)) => rd_terms(b@, p as int, n as nat) == Ok::<(Seq<(u32, u32)>, int), DecodeError>((t@, q as int)),
            Err(e) => rd_terms(b@, p as int, n as nat) == Err::<(Seq<(u32, u32)>, int), DecodeError>(e),
        },
{
    let mut terms: Vec<(u32, u32)> = Vec::new();
    let mut pos = p;
    let mut i: u32 = 0;
    while i < n
        invariant
            i <= n,
            rd_terms(b@, p as int, i as nat) == Ok::<(Seq<(u32, u32)>, int), DecodeError>((terms@, pos as int)),
        decreases n - i,
    {
        let (id, q1) = match read_u32(b, pos) {
            Ok(x) => x,
            Err(e) => {
                proof {
                    lemma_terms_err_persists(b@, p as int, (i + 1) as nat, n as nat);
                }
                return Err(e);
            },
        };
        let (w, q2) = match read_u32(b, q1) {
            Ok(x) => x,
            Err(e) => {
                proof {
                    lemma_terms_err_persists(b@, p as int, (i + 1) as nat, n as nat);
                }
                return Err(e);
            },
        };
        terms.push((id, w));
        pos = q2;
        i += 1;
    }
    Ok((terms, pos))
}

proof fn lemma_terms_err_persists(b: Seq<u8>, p: int, k: nat, n: nat)
    requires
        k <= n,
        rd_terms(b, p, k) is Err,
    ensures
        rd_terms(b, p, n) == rd_terms(b, p, k),
    decreases n - k,
{
    if k < n {
        lemma_terms_err_persists(b, p, k + 1, n);
    }
}

proof fn lemma_strs_err_persists(b: Seq<u8>, p: int, k: nat, n: nat)
    requires
        k <= n,
        rd_strs(b, p, k) is Err,
    ensures
        rd_strs(b, p, n) == rd_strs(b, p, k),
    decreases n - k,
{
    if k < n {
        lemma_strs_err_persists(b, p, k + 1, n);
    }
}

proof fn lemma_docs_err_persists(b: Seq<u8>, p: int, k: nat, n: nat)
    requires
        k <= n,
        rd_docs(b, p, k) is Err,
    ensures
        rd_docs(b, p, n) == rd_docs(b, p, k),
    decreases n - k,
{
    if k < n {
        lemma_docs_err_persists(b, p, k + 1, n);
    }
}

fn read_doc(b: &Vec<u8>, p: usize) -> (r: Result<(VectorDoc, usize), DecodeError>)
    ensures
        match r {
            Ok((d, q)) => rd_doc(b@, p as int) == Ok::<(DocBytes, int), DecodeError>((doc_bytes(d), q as int))
                && doc_unique(d),
            Err(e) => rd_doc(b@, p as int) == Err::<(DocBytes, int), DecodeError>(e),
        },
{
    let (qualified_name, p1) = read_string(b, p)?;
    let (name, p2) = read_string(b, p1)?;
    let (label, p3) = read_string(b, p2)?;
    let (file_path, p4) = read_string(b, p3)?;
    let (nnz, p5) = read_u32(b, p4)?;
    let (terms, p6) = read_terms(b, p5, nnz)?;
    Ok((VectorDoc { qualified_name, name, label, file_path, terms }, p6))
}

fn read_vocab(b: &Vec<u8>, p: usize, n: u32) -> (r: Result<(Vec<String>, usize), DecodeError>)
    ensures
        match r {
            Ok((v, q)) => rd_strs(b@, p as int, n as nat) == Ok::<(Seq<Seq<u8>>, int), DecodeError>(
                (v@.map_values(|s: String| utf8_encode(s@)), q as int))
                && forall|i: int| 0 <= i < v@.len() ==> utf8_unique(#[trigger] v@[i]@),
            Err(e) => rd_strs(b@, p as int, n as nat) == Err::<(Seq<Seq<u8>>, int), DecodeError>(e),
        },
{
    let mut vocabulary: Vec<String> = Vec::new();
    let mut pos = p;
    proof {
        assert(vocabulary@.map_values(|s: String| utf8_encode(s@)) =~= Seq::<Seq<u8>>::empty());
    }
    let mut i: u32 = 0;
    while i < n
        invariant
            i <= n,
            rd_strs(b@, p as int, i as nat) == Ok::<(Seq<Seq<u8>>, int), DecodeError>(
                (vocabulary@.map_values(|s: String| utf8_encode(s@)), pos as int)),
            forall|j: int| 0 <= j < vocabulary@.len() ==> utf8_unique(#[trigger] vocabulary@[j]@),
        decreases n - i,
    {
        match read_string(b, pos) {
            Ok((s, q)) => {
                let ghost before = vocabulary@.map_values(|s: String| utf8_encode(s@));
                vocabulary.push(s);
                proof {
                    assert(vocabulary@.map_values(|s: String| utf8_encode(s@)) =~= before.push(utf8_encode(s@)));
                }
                pos = q;
            },
            Err(e) => {
                proof {
                    lemma_strs_err_persists(b@, p as int, (i + 1) as nat, n as nat);
                }
                return Err(e);
            },
        }
        i += 1;
    }
    Ok((vocabulary, pos))
}

fn read_docs(b: &Vec<u8>, p: usize, n: u32) -> (r: Result<(Vec<VectorDoc>, usize), DecodeError>)
    ensures
        match r {
            Ok((v, q)) => rd_docs(b@, p as int, n as nat) == Ok::<(Seq<DocBytes>, int), DecodeError>(
                (v@.map_values(|d: VectorDoc| doc_bytes(d)), q as int))
                && forall|i: int| 0 <= i < v@.len() ==> doc_unique(#[trigger] v@[i]),
            Err(e) => rd_docs(b@, p as int, n as nat) == Err::<(Seq<DocBytes>, int), DecodeError>(e),
        },
{
    let mut docs: Vec<VectorDoc> = Vec::new();
    let mut pos = p;
    proof {
        assert(docs@.map_values(|d: VectorDoc| doc_bytes(d)) =~= Seq::<DocBytes>::empty());
    }
    let mut i: u32 = 0;
    while i < n
        invariant
            i <= n,
            rd_docs(b@, p as int, i as nat) == Ok::<(Seq<DocBytes>, int), DecodeError>(
                (docs@.map_values(|d: VectorDoc| doc_bytes(d)), pos as int)),
            forall|j: int| 0 <= j < docs@.len() ==> doc_unique(#[trigger] docs@[j]),
        decreases n - i,
    {
        match read_doc(b, pos) {
            Ok((d, q)) => {
                let ghost before = docs@.map_values(|d: VectorDoc| doc_bytes(d));
                docs.push(d);
                proof {
                    assert(docs@.map_values(|d: VectorDoc| doc_bytes(d)) =~= before.push(doc_bytes(d)));
                }
                pos = q;
            },
            Err(e) => {
                proof {
                    lemma_docs_err_persists(b@, p as int, (i + 1) as nat, n as nat);
                }
                return Err(e);
            },
        }
        i += 1;
    }
    Ok((docs, pos))
}

/// Reads an index from its bytes, as `rd_index` describes.
pub fn decode_index(b: &Vec<u8>) -> (r: Result<VectorIndex, DecodeError>)
    ensures
        match r {
            Ok(ix) => rd_index(b@) == Ok::<IndexBytes, DecodeError>(index_bytes(ix)) && index_unique(ix),
            Err(e) => rd_index(b@) == Err::<IndexBytes, DecodeError>(e),
        },
{
    let (magic, p1) = read_u32(b, 0)?;
    if magic != VECTOR_MAGIC {
        return Err(DecodeError::BadMagic(magic));
    }
    let (version, p2) = read_u32(b, p1)?;
    if version != VECTOR_VERSION {
        return Err(DecodeError::UnsupportedVersion(version));
    }
    let (vocab_size, p3) = read_u32(b, p2)?;
    let (doc_count, p4) = read_u32(b, p3)?;
    let (vocabulary, p5) = read_vocab(b, p4, vocab_size)?;
    let (docs, _p6) = read_docs(b, p5, doc_count)?;
    Ok(VectorIndex { docs, vocabulary })
}

// ---------------------------------------------------------------------------
// Reading back what was written
// ---------------------------------------------------------------------------

/// `x` stands in `b` at position `p`.
pub open spec fn at(b: Seq<u8>, p: int, x: Seq<u8>) -> bool {
    0 <= p && p + x.len() <= b.len() && b.subrange(p, p + x.len()) == x
}

/// Every length and count of the index fits in a `u32`.
pub open spec fn fits(ix: IndexBytes) -> bool {
    &&& ix.0.len() <= u32::MAX
    &&& ix.1.len() <= u32::MAX
    &&& forall|i: int| 0 <= i < ix.0.len() ==> (#[trigger] ix.0[i]).len() <= u32::MAX
    &&& forall|i: int| 0 <= i < ix.1.len() ==> doc_fits(#[trigger] ix.1[i])
}

pub open spec fn doc_fits(d: DocBytes) -> bool {
    d.0.len() <= u32::MAX && d.1.len() <= u32::MAX && d.2.len() <= u32::MAX && d.3.len() <= u32::MAX
        && d.4.len() <= u32::MAX
}

/// Every string of the index is UTF-8.
pub open spec fn all_utf8(ix: IndexBytes) -> bool {
    &&& forall|i: int| 0 <= i < ix.0.len() ==> utf8_valid(#[trigger] ix.0[i])
    &&& forall|i: int| 0 <= i < ix.1.len() ==> doc_utf8(#[trigger] ix.1[i])
}

pub open spec fn doc_utf8(d: DocBytes) -> bool {
    utf8_valid(d.0) && utf8_valid(d.1) && utf8_valid(d.2) && utf8_valid(d.3)
}

proof fn lemma_le32_value(v: u32)
    ensures
        le_value(le32(v), 0) == v,
{
    let x = v as int;
    lemma_fundamental_div_mod(x, 256);
    lemma_div_denominator(x, 256, 256);
    lemma_fundamental_div_mod(x / 256, 256);
    lemma_div_denominator(x, 65536, 256);
    lemma_fundamental_div_mod(x / 65536, 256);
    assert(x / 256 / 256 == x / 65536);
    assert(x / 65536 / 256 == x / 16777216);
    assert(x / 16777216 < 256);
    let l = le32(v);
    assert(l[0] as int == x % 256);
    assert(l[1] as int == (x / 256) % 256);
    assert(l[2] as int == (x / 65536) % 256);
    assert(l[3] as int == x / 16777216);
}

proof fn lemma_at_split(b: Seq<u8>, p: int, x: Seq<u8>, y: Seq<u8>)
    requires
        at(b, p, x + y),
    ensures
        at(b, p, x),
        at(b, p + x.len(), y),
{
    assert(b.subrange(p, p + x.len()) =~= (x + y).subrange(0, x.len() as int));
    assert((x + y).subrange(0, x.len() as int) =~= x);
    assert(b.subrange(p + x.len(), p + x.len() + y.len()) =~= (x + y).subrange(x.len() as int, (x + y).len() as int));
    assert((x + y).subrange(x.len() as int, (x + y).len() as int) =~= y);
}

proof fn lemma_rd32_at(b: Seq<u8>, p: int, v: u32)
    requires
        at(b, p, le32(v)),
    ensures
        rd32(b, p) == Ok::<(u32, int), DecodeError>((v, p + 4)),
{
    lemma_le32_value(v);
    let l = le32(v);
    assert(b.subrange(p, p + 4) == l);
    assert(b[p] == l[0]);
    assert(b[p + 1] == l[1]);
    assert(b[p + 2] == l[2]);
    assert(b[p + 3] == l[3]);
}

proof fn lemma_rd_str_at(b: Seq<u8>, p: int, x: Seq<u8>)
    requires
        at(b, p, enc_str(x)),
        x.len() <= u32::MAX,
        utf8_valid(x),
    ensures
        rd_str(b, p) == Ok::<(Seq<u8>, int), DecodeError>((x, p + 4 + x.len())),
{
    lemma_at_split(b, p, le32(x.len() as u32), x);
    lemma_rd32_at(b, p, x.len() as u32);
    assert(b.subrange(p + 4, p + 4 + x.len()) == x);
}

proof fn lemma_rd_strs_at(b: Seq<u8>, p: int, v: Seq<Seq<u8>>)
    requires
        at(b, p, enc_strs(v)),
        forall|i: int| 0 <= i < v.len() ==> (#[trigger] v[i]).len() <= u32::MAX,
        forall|i: int| 0 <= i < v.len() ==> utf8_valid(#[trigger] v[i]),
    ensures
        rd_strs(b, p, v.len()) == Ok::<(Seq<Seq<u8>>, int), DecodeError>((v, p + enc_strs(v).len())),
    decreases v.len(),
{
    if v.len() == 0 {
        assert(v =~= Seq::<Seq<u8>>::empty());
    } else {
        let w = v.drop_last();
        lemma_at_split(b, p, enc_strs(w), enc_str(v.last()));
        assert forall|i: int| 0 <= i < w.len() implies (#[trigger] w[i]).len() <= u32::MAX && utf8_valid(w[i]) by {
            assert(w[i] == v[i]);
        }
        lemma_rd_strs_at(b, p, w);
        assert(v[v.len() - 1] == v.last());
        lemma_rd_str_at(b, p + enc_strs(w).len(), v.last());
        assert(w.push(v.last()) =~= v);
    }
}

proof fn lemma_rd_terms_at(b: Seq<u8>, p: int, t: Seq<(u32, u32)>)
    requires
        at(b, p, enc_terms(t)),
    ensures
        rd_terms(b, p, t.len()) == Ok::<(Seq<(u32, u32)>, int), DecodeError>((t, p + enc_terms(t).len())),
    decreases t.len(),
{
    if t.len() == 0 {
        assert(t =~= Seq::<(u32, u32)>::empty());
    } else {
        let w = t.drop_last();
        let l = t.last();
        assert(enc_terms(t) == enc_terms(w) + le32(l.0) + le32(l.1));
        lemma_at_split(b, p, enc_terms(w) + le32(l.0), le32(l.1));
        lemma_at_split(b, p, enc_terms(w), le32(l.0));
        lemma_rd_terms_at(b, p, w);
        lemma_rd32_at(b, p + enc_terms(w).len(), l.0);
        lemma_rd32_at(b, p + enc_terms(w).len() + 4, l.1);
        assert(w.push((l.0, l.1)) =~= t);
    }
}

proof fn lemma_rd_doc_at(b: Seq<u8>, p: int, d: DocBytes)
    requires
        at(b, p, enc_doc(d)),
        doc_fits(d),
        doc_utf8(d),
    ensures
        rd_doc(b, p) == Ok::<(DocBytes, int), DecodeError>((d, p + enc_doc(d).len())),
{
    let s0 = enc_str(d.0);
    let s1 = enc_str(d.1);
    let s2 = enc_str(d.2);
    let s3 = enc_str(d.3);
    let n = le32(d.4.len() as u32);
    let t = enc_terms(d.4);
    lemma_at_split(b, p, s0 + s1 + s2 + s3 + n, t);
    lemma_at_split(b, p, s0 + s1 + s2 + s3, n);
    lemma_at_split(b, p, s0 + s1 + s2, s3);
    lemma_at_split(b, p, s0 + s1, s2);
    lemma_at_split(b, p, s0, s1);
    lemma_rd_str_at(b, p, d.0);
    lemma_rd_str_at(b, p + s0.len(), d.1);
    lemma_rd_str_at(b, p + s0.len() + s1.len(), d.2);
    lemma_rd_str_at(b, p + s0.len() + s1.len() + s2.len(), d.3);
    lemma_rd32_at(b, p + s0.len() + s1.len() + s2.len() + s3.len(), d.4.len() as u32);
    lemma_rd_terms_at(b, p + s0.len() + s1.len() + s2.len() + s3.len() + 4, d.4);
}

proof fn lemma_rd_docs_at(b: Seq<u8>, p: int, v: Seq<DocBytes>)
    requires
        at(b, p, enc_docs(v)),
        forall|i: int| 0 <= i < v.len() ==> doc_fits(#[trigger] v[i]) && doc_utf8(v[i]),
    ensures
        rd_docs(b, p, v.len()) == Ok::<(Seq<DocBytes>, int), DecodeError>((v, p + enc_docs(v).len())),
    decreases v.len(),
{
    if v.len() == 0 {
        assert(v =~= Seq::<DocBytes>::empty());
    } else {
        let w = v.drop_last();
        lemma_at_split(b, p, enc_docs(w), enc_doc(v.last()));
        assert forall|i: int| 0 <= i < w.len() implies doc_fits(#[trigger] w[i]) && doc_utf8(w[i]) by {
            assert(w[i] == v[i]);
        }
        lemma_rd_docs_at(b, p, w);
        assert(v[v.len() - 1] == v.last());
        lemma_rd_doc_at(b, p + enc_docs(w).len(), v.last());
        assert(w.push(v.last()) =~= v);
    }
}

/// Reading back the bytes of an index gives the index again, whatever
/// follows them, when its lengths and counts fit in a `u32` and its
/// strings are UTF-8.
#[verifier::spinoff_prover]
#[verifier::rlimit(80)]
pub proof fn lemma_decode_encode(ix: IndexBytes, rest: Seq<u8>)
    requires
        fits(ix),
        all_utf8(ix),
    ensures
        rd_index(enc_index(ix) + rest) == Ok::<IndexBytes, DecodeError>(ix),
{
    let b = enc_index(ix) + rest;
    let h0 = le32(VECTOR_MAGIC);
    let h1 = le32(VECTOR_VERSION);
    let h2 = le32(ix.0.len() as u32);
    let h3 = le32(ix.1.len() as u32);
    let vs = enc_strs(ix.0);
    let ds = enc_docs(ix.1);
    assert(at(b, 0, enc_index(ix))) by {
        assert(b.subrange(0, enc_index(ix).len() as int) =~= enc_index(ix));
    }
    lemma_at_split(b, 0, h0 + h1 + h2 + h3 + vs, ds);
    lemma_at_split(b, 0, h0 + h1 + h2 + h3, vs);
    lemma_at_split(b, 0, h0 + h1 + h2, h3);
    lemma_at_split(b, 0, h0 + h1, h2);
    lemma_at_split(b, 0, h0, h1);
    assert(h0.len() == 4 && h1.len() == 4 && h2.len() == 4 && h3.len() == 4);
    lemma_rd32_at(b, 0, VECTOR_MAGIC);
    lemma_rd32_at(b, 4, VECTOR_VERSION);
    lemma_rd32_at(b, 8, ix.0.len() as u32);
    lemma_rd32_at(b, 12, ix.1.len() as u32);
    assert(ix.0.len() as u32 as nat == ix.0.len());
    assert(ix.1.len() as u32 as nat == ix.1.len());
    assert forall|i: int| 0 <= i < ix.1.len() implies doc_fits(#[trigger] ix.1[i]) && doc_utf8(ix.1[i]) by {}
    lemma_rd_strs_at(b, 16, ix.0);
    let p5 = 16 + vs.len() as int;
    lemma_rd_docs_at(b, p5, ix.1);
    assert(rd_strs(b, 16, ix.0.len()) == Ok::<(Seq<Seq<u8>>, int), DecodeError>((ix.0, p5)));
    assert(rd_docs(b, p5, ix.1.len()) == Ok::<(Seq<DocBytes>, int), DecodeError>((ix.1, p5 + ds.len())));
}

/// An index read from bytes whose reading gives the bytes of `ix0` is
/// `ix0` again: the same vocabulary, and documents with the same names,
/// labels, paths and terms.
pub proof fn lemma_read_gives_back(ix0: VectorIndex, ix: VectorIndex)
    requires
        index_bytes(ix) == index_bytes(ix0),
        index_unique(ix),
    ensures
        ix.vocabulary@.len() == ix0.vocabulary@.len(),
        forall|i: int| 0 <= i < ix.vocabulary@.len() ==> (#[trigger] ix.vocabulary@[i])@ == ix0.vocabulary@[i]@,
        ix.docs@.len() == ix0.docs@.len(),
        forall|i: int| 0 <= i < ix.docs@.len() ==> {
            &&& (#[trigger] ix.docs@[i]).qualified_name@ == ix0.docs@[i].qualified_name@
            &&& ix.docs@[i].name@ == ix0.docs@[i].name@
            &&& ix.docs@[i].label@ == ix0.docs@[i].label@
            &&& ix.docs@[i].file_path@ == ix0.docs@[i].file_path@
            &&& ix.docs@[i].terms@ == ix0.docs@[i].terms@
        },
{
    let b = index_bytes(ix);
    let b0 = index_bytes(ix0);
    assert(b.0.len() == ix.vocabulary@.len() && b0.0.len() == ix0.vocabulary@.len());
    assert(b.1.len() == ix.docs@.len() && b0.1.len() == ix0.docs@.len());
    assert forall|i: int| 0 <= i < ix.vocabulary@.len() implies (#[trigger] ix.vocabulary@[i])@ == ix0.vocabulary@[i]@ by {
        assert(b.0[i] == b0.0[i]);
        assert(utf8_unique(ix.vocabulary@[i]@));
        assert(utf8_encode(ix0.vocabulary@[i]@) == utf8_encode(ix.vocabulary@[i]@));
    }
    assert forall|i: int| 0 <= i < ix.docs@.len() implies {
        &&& (#[trigger] ix.docs@[i]).qualified_name@ == ix0.docs@[i].qualified_name@
        &&& ix.docs@[i].name@ == ix0.docs@[i].name@
        &&& ix.docs@[i].label@ == ix0.docs@[i].label@
        &&& ix.docs@[i].file_path@ == ix0.docs@[i].file_path@
        &&& ix.docs@[i].terms@ == ix0.docs@[i].terms@
    } by {
        let d = ix.docs@[i];
        let d0 = ix0.docs@[i];
        assert(b.1[i] == b0.1[i]);
        assert(doc_bytes(d) == doc_bytes(d0));
        assert(doc_unique(d));
        assert(utf8_encode(d0.qualified_name@) == utf8_encode(d.qualified_name@));
        assert(utf8_encode(d0.name@) == utf8_encode(d.name@));
        assert(utf8_encode(d0.label@) == utf8_encode(d.label@));
        assert(utf8_encode(d0.file_path@) == utf8_encode(d.file_path@));
    }
}

/// An index whose vocabulary and documents number at most `u32::MAX`, whose
/// strings hold at most a quarter of `u32::MAX` chars and whose documents
/// hold at most `u32::MAX` terms has lengths and counts that fit the format.
pub proof fn lemma_index_fits(ix: VectorIndex)
    requires
        ix.vocabulary@.len() <= u32::MAX,
        ix.docs@.len() <= u32::MAX,
        forall|i: int| 0 <= i < ix.vocabulary@.len() ==> (#[trigger] ix.vocabulary@[i])@.len() <= u32::MAX / 4,
        forall|i: int| 0 <= i < ix.docs@.len() ==> {
            &&& (#[trigger] ix.docs@[i]).qualified_name@.len() <= u32::MAX / 4
            &&& ix.docs@[i].name@.len() <= u32::MAX / 4
            &&& ix.docs@[i].label@.len() <= u32::MAX / 4
            &&& ix.docs@[i].file_path@.len() <= u32::MAX / 4
            &&& ix.docs@[i].terms@.len() <= u32::MAX
        },
    ensures
        fits(index_bytes(ix)),
{
    let ib = index_bytes(ix);
    assert forall|i: int| 0 <= i < ib.0.len() implies (#[trigger] ib.0[i]).len() <= u32::MAX by {
        lemma_utf8_len(ix.vocabulary@[i]@);
    }
    assert forall|i: int| 0 <= i < ib.1.len() implies doc_fits(#[trigger] ib.1[i]) by {
        let d = ix.docs@[i];
        assert(ib.1[i] == doc_bytes(d));
        lemma_utf8_len(d.qualified_name@);
        lemma_utf8_len(d.name@);
        lemma_utf8_len(d.label@);
        lemma_utf8_len(d.file_path@);
    }
}

/// Saving then loading an index gives it back: when `ix0` fits the format
/// (see `lemma_index_fits`), the bytes `encode_index` writes for it read
/// back (`rd_index`, which `decode_index` follows) as the bytes of `ix0`,
/// and any index `decode_index` returns for them has `ix0`'s vocabulary,
/// names, labels, paths and terms.
pub proof fn lemma_save_load(ix0: VectorIndex, ix: VectorIndex)
    requires
        fits(index_bytes(ix0)),
        rd_index(enc_index(index_bytes(ix0))) == Ok::<IndexBytes, DecodeError>(index_bytes(ix)),
        index_unique(ix),
    ensures
        rd_index(enc_index(index_bytes(ix0))) == Ok::<IndexBytes, DecodeError>(index_bytes(ix0)),
        ix.vocabulary@.len() == ix0.vocabulary@.len(),
        forall|i: int| 0 <= i < ix.vocabulary@.len() ==> (#[trigger] ix.vocabulary@[i])@ == ix0.vocabulary@[i]@,
        ix.docs@.len() == ix0.docs@.len(),
        forall|i: int| 0 <= i < ix.docs@.len() ==> {
            &&& (#[trigger] ix.docs@[i]).qualified_name@ == ix0.docs@[i].qualified_name@
            &&& ix.docs@[i].name@ == ix0.docs@[i].name@
            &&& ix.docs@[i].label@ == ix0.docs@[i].label@
            &&& ix.docs@[i].file_path@ == ix0.docs@[i].file_path@
            &&& ix.docs@[i].terms@ == ix0.docs@[i].terms@
        },
{
    lemma_index_bytes_utf8(ix0);
    lemma_decode_encode(index_bytes(ix0), Seq::empty());
    assert(enc_index(index_bytes(ix0)) + Seq::<u8>::empty() =~= enc_index(index_bytes(ix0)));
    lemma_read_gives_back(ix0, ix);
}

/// An index whose strings are encoded reads back: every string of it is
/// UTF-8 (each is the encoding of a string).
pub proof fn lemma_index_bytes_utf8(ix: VectorIndex)
    ensures
        all_utf8(index_bytes(ix)),
{
    let ib = index_bytes(ix);
    assert forall|i: int| 0 <= i < ib.0.len() implies utf8_valid(#[trigger] ib.0[i]) by {
        assert(ib.0[i] == utf8_encode(ix.vocabulary@[i]@));
    }
    assert forall|i: int| 0 <= i < ib.1.len() implies doc_utf8(#[trigger] ib.1[i]) by {
        let d = ix.docs@[i];
        assert(ib.1[i] == doc_bytes(d));
        assert(utf8_encode(d.qualified_name@) == ib.1[i].0);
        assert(utf8_encode(d.name@) == ib.1[i].1);
        assert(utf8_encode(d.label@) == ib.1[i].2);
        assert(utf8_encode(d.file_path@) == ib.1[i].3);
    }
}

} // verus!
