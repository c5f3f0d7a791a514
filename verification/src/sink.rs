//! The compression-transparent byte sink and source: one read/write
//! contract over a plain byte store and a gzip-compressed one, selected
//! by the path-name suffix.  Callers never branch on compression: a
//! sink accepts raw bytes and encodes on closing; a source decodes on
//! opening and hands out raw bytes.

use vstd::prelude::*;
use vstd::string::StrSliceExecFns;

use std::io::Read;
use std::io::Write;

verus! {

/// What a gzip stream decodes to: the uncompressed bytes if the stream
/// is well formed, nothing otherwise.  This names the result of
/// flate2's `GzDecoder` reading a byte stream to its end, which depends
/// on the stream's bytes alone.
pub uninterp spec fn gunzip_of(s: Seq<u8>) -> Option<Seq<u8>>;

/// Relies on flate2's `write::GzEncoder` with a fixed compression
/// level, writing into an in-memory buffer (which cannot fail): its
/// output is a well-formed gzip stream that `read::GzDecoder` decodes
/// back to exactly the input bytes.
#[verifier::external_body]
fn gzip_compress(data: &[u8]) -> (r: Vec<u8>)
    ensures
        gunzip_of(r@) == Some(data@),
{
    let mut enc = flate2::write::GzEncoder::new(Vec::new(), flate2::Compression::new(6));
    enc.write_all(data).expect("writing into an in-memory gzip encoder cannot fail");
    enc.finish().expect("finishing an in-memory gzip encoder cannot fail")
}

/// Relies on flate2's `read::GzDecoder` reading to the end of an
/// in-memory gzip stream: it yields the uncompressed bytes of a
/// well-formed stream and reports an error on a malformed one.
#[verifier::external_body]
fn gzip_decompress(data: &[u8]) -> (r: Option<Vec<u8>>)
    ensures
        r is Some <==> gunzip_of(data@) is Some,
        r is Some ==> r->0@ == gunzip_of(data@)->0,
{
    let mut dec = flate2::read::GzDecoder::new(data);
    let mut out = Vec::new();
    match dec.read_to_end(&mut out) {
        Ok(_) => Some(out),
        Err(_) => None,
    }
}

/// Whether a byte store is kept plain or wrapped in streaming gzip
/// compression.
#[derive(Clone, Copy, Debug, PartialEq, Eq, Structural)]
pub enum SinkKind {
    Plain,
    Gzip,
}

/// The path names a gzip-compressed store: it ends in ".gz".
pub open spec fn is_gz_name(s: Seq<char>) -> bool {
    s.len() >= 3 && s[s.len() - 3] == '.' && s[s.len() - 2] == 'g' && s[s.len() - 1] == 'z'
}

/// Selects the store kind from a path name: a ".gz" suffix means
/// compressed, anything else plain.
pub fn kind_for_path(path: &str) -> (r: SinkKind)
    ensures
        r == (if is_gz_name(path@) {
            SinkKind::Gzip
        } else {
            SinkKind::Plain
        }),
{
    let n = path.unicode_len();
    if n < 3 {
        return SinkKind::Plain;
    }
    if path.get_char(n - 3) == '.' && path.get_char(n - 2) == 'g' && path.get_char(n - 1) == 'z' {
        SinkKind::Gzip
    } else {
        SinkKind::Plain
    }
}

/// A byte destination: raw bytes written through it accumulate and are
/// encoded according to the kind only when the sink is closed.
pub struct Sink {
    /// Whether closing compresses the accumulated bytes.
    pub kind: SinkKind,
    /// The raw bytes written so far.
    pub data: Vec<u8>,
}

impl Sink {
    /// An empty sink of the given kind.
    pub fn new(kind: SinkKind) -> (r: Sink)
        ensures
            r.kind == kind,
            r.data@ == Seq::<u8>::empty(),
    {
        Sink { kind, data: Vec::new() }
    }

    /// Appends a chunk of raw bytes.  Writes behave identically for
    /// both kinds: no byte is dropped, reordered or duplicated.
    pub fn write(&mut self, chunk: &[u8])
        ensures
            final(self).kind == old(self).kind,
            final(self).data@ == old(self).data@ + chunk@,
    {
        let mut j: usize = 0;
        while j < chunk.len()
            invariant
                j <= chunk@.len(),
                self.kind == old(self).kind,
                self.data@ == old(self).data@ + chunk@.take(j as int),
            decreases chunk@.len() - j,
        {
            proof {
                assert(old(self).data@ + chunk@.take(j + 1) =~= (old(self).data@ + chunk@.take(
                    j as int,
                )).push(chunk@[j as int]));
            }
            self.data.push(chunk[j]);
            j = j + 1;
        }
        proof {
            assert(chunk@.take(chunk@.len() as int) =~= chunk@);
        }
    }

    /// Closes the sink: encodes everything written, so that a source of
    /// the same kind recovers the written bytes exactly.
    pub fn into_bytes(self) -> (r: Vec<u8>)
        ensures
            self.kind == SinkKind::Plain ==> r@ == self.data@,
            self.kind == SinkKind::Gzip ==> gunzip_of(r@) == Some(self.data@),
    {
        match self.kind {
            SinkKind::Plain => self.data,
            SinkKind::Gzip => gzip_compress(self.data.as_slice()),
        }
    }
}

/// A byte origin: stored bytes are decoded according to the kind when
/// the source is opened, then handed out in chunks of raw bytes.
pub struct Source {
    /// The decoded contents.
    pub data: Vec<u8>,
    /// How many of the contents have been read out already.
    pub pos: usize,
}

impl Source {
    /// Opens a source over stored bytes.  A plain source holds the
    /// bytes as they are; a gzip source opens exactly when the bytes
    /// are a well-formed gzip stream and holds what they decode to.
    pub fn open(kind: SinkKind, raw: &[u8]) -> (r: Option<Source>)
        ensures
            kind == SinkKind::Plain ==> r is Some && r->0.data@ == raw@,
            kind == SinkKind::Gzip ==> {
                &&& r is Some <==> gunzip_of(raw@) is Some
                &&& r is Some ==> r->0.data@ == gunzip_of(raw@)->0
            },
            r is Some ==> r->0.pos == 0,
    {
        match kind {
            SinkKind::Plain => {
                let mut data: Vec<u8> = Vec::new();
                let mut j: usize = 0;
                while j < raw.len()
                    invariant
                        j <= raw@.len(),
                        data@ == raw@.take(j as int),
                    decreases raw@.len() - j,
                {
                    proof {
                        assert(raw@.take(j + 1) =~= raw@.take(j as int).push(raw@[j as int]));
                    }
                    data.push(raw[j]);
                    j = j + 1;
                }
                proof {
                    assert(raw@.take(raw@.len() as int) =~= raw@);
                }
                Some(Source { data, pos: 0 })
            },
            SinkKind::Gzip => match gzip_decompress(raw) {
                Some(data) => Some(Source { data, pos: 0 }),
                None => None,
            },
        }
    }

    /// Reads at most `max` of the remaining bytes, advancing the read
    /// position.  An empty result means the source is exhausted.
    pub fn read(&mut self, max: usize) -> (r: Vec<u8>)
        requires
            old(self).pos <= old(self).data@.len(),
        ensures
            final(self).data@ == old(self).data@,
            final(self).pos == old(self).pos + r@.len(),
            final(self).pos <= final(self).data@.len(),
            r@ == old(self).data@.subrange(
                old(self).pos as int,
                old(self).pos + r@.len(),
            ),
            r@.len() == vstd::math::min(max as int, old(self).data@.len() - old(self).pos),
    {
        let n = self.data.len();
        let remaining = n - self.pos;
        let count = if max < remaining {
            max
        } else {
            remaining
        };
        let mut r: Vec<u8> = Vec::new();
        let mut j: usize = 0;
        while j < count
            invariant
                j <= count,
                self.pos + count <= n,
                n == self.data@.len(),
                self == old(self),
                r@ == self.data@.subrange(self.pos as int, self.pos + j),
            decreases count - j,
        {
            proof {
                assert(self.data@.subrange(self.pos as int, self.pos + j + 1) =~= self.data@
                    .subrange(self.pos as int, self.pos + j).push(self.data@[self.pos + j]));
            }
            r.push(self.data[self.pos + j]);
            j = j + 1;
        }
        self.pos = self.pos + count;
        r
    }
}

/// Idempotent round trip: any byte sequence written through a sink and
/// read back through a source of the same kind is recovered exactly,
/// for both kinds and for empty and non-empty inputs alike.
pub fn sink_source_round_trip(kind: SinkKind, data: &[u8]) -> (r: Vec<u8>)
    ensures
        r@ == data@,
{
    let mut sink = Sink::new(kind);
    sink.write(data);
    proof {
        assert(Seq::<u8>::empty() + data@ =~= data@);
    }
    let stored = sink.into_bytes();
    let opened = Source::open(kind, stored.as_slice());
    let mut source = opened.unwrap();
    let r = source.read(source.data.len());
    proof {
        assert(r@ =~= data@);
    }
    r
}

} // verus!
