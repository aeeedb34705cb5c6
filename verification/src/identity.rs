//! Length-framed semantic hashing of calculation inputs with SHA-256.
use vstd::prelude::*;
use vstd::string::StringSliceAdditionalSpecFns;

use sha2::Digest;
use sha2::Sha256;

use crate::cell::{CellAddress, CellRange};

verus! {

/// SHA-256 digest of a byte string.
pub uninterp spec fn sha256_spec(input: Seq<u8>) -> Seq<u8>;

/// Calls `sha2::Sha256::digest`, the SHA-256 digest of `input`; the result depends on `input`
/// alone and is 32 bytes long.
#[verifier::external_body]
fn sha256_digest(input: &[u8]) -> (r: [u8; 32])
    ensures
        r@ == sha256_spec(input@),
{
    Sha256::digest(input).into()
}

/// The low `n` bytes of `v`, least significant first.
pub open spec fn le_bytes(v: nat, n: nat) -> Seq<u8>
    decreases n,
{
    if n == 0 {
        Seq::empty()
    } else {
        seq![(v % 256) as u8] + le_bytes(v / 256, (n - 1) as nat)
    }
}

/// A field framed by its length: the length as eight little-endian bytes, then the bytes.
pub open spec fn framed(bytes: Seq<u8>) -> Seq<u8> {
    le_bytes(bytes.len(), 8) + bytes
}

/// An optional field: a zero byte when absent, a one byte and the field when present.
pub open spec fn optional_field(field: Option<Seq<u8>>) -> Seq<u8> {
    match field {
        Some(f) => seq![1u8] + f,
        None => seq![0u8],
    }
}

/// The bytes of a cell address: row, then column, four little-endian bytes each.
pub open spec fn address_bytes(row: u32, column: u32) -> Seq<u8> {
    le_bytes(row as nat, 4) + le_bytes(column as nat, 4)
}

/// Hashes a sequence of typed fields, each framed so that distinct field sequences feed distinct
/// bytes to SHA-256.
#[derive(Debug)]
pub struct SemanticHash {
    input: Vec<u8>,
}

impl View for SemanticHash {
    type V = Seq<u8>;

    closed spec fn view(&self) -> Seq<u8> {
        self.input@
    }
}

/// Appends the low `n` bytes of `v`, least significant first.
fn push_le(out: &mut Vec<u8>, v: u64, n: usize)
    ensures
        final(out)@ == old(out)@ + le_bytes(v as nat, n as nat),
{
    let ghost start = out@;
    let mut rest = v;
    let mut k: usize = 0;
    while k < n
        invariant
            k <= n,
            out@ + le_bytes(rest as nat, (n - k) as nat) == start + le_bytes(v as nat, n as nat),
        decreases n - k,
    {
        let ghost before = out@;
        out.push((rest % 256) as u8);
        proof {
            assert(le_bytes(rest as nat, (n - k) as nat)
                == seq![(rest % 256) as u8] + le_bytes((rest / 256) as nat, (n - k - 1) as nat));
            assert(out@ + le_bytes((rest / 256) as nat, (n - k - 1) as nat)
                =~= before + (seq![(rest % 256) as u8] + le_bytes((rest / 256) as nat, (n - k - 1) as nat)));
        }
        rest = rest / 256;
        k = k + 1;
    }
    assert(out@ =~= out@ + le_bytes(rest as nat, 0));
}

/// Appends every byte of `bytes`.
fn push_all(out: &mut Vec<u8>, bytes: &[u8])
    ensures
        final(out)@ == old(out)@ + bytes@,
{
    let ghost start = out@;
    let mut i: usize = 0;
    while i < bytes.len()
        invariant
            i <= bytes@.len(),
            out@ == start + bytes@.take(i as int),
        decreases bytes@.len() - i,
    {
        out.push(bytes[i]);
        i = i + 1;
        assert(out@ =~= start + bytes@.take(i as int));
    }
    assert(bytes@.take(bytes@.len() as int) =~= bytes@);
}

impl SemanticHash {
    /// A hash with nothing fed yet.
    pub fn new() -> (r: Self)
        ensures
            r@ == Seq::<u8>::empty(),
    {
        SemanticHash { input: Vec::new() }
    }

    /// The SHA-256 digest of everything fed.
    pub fn finish(self) -> (r: [u8; 32])
        ensures
            r@ == sha256_spec(self@),
    {
        sha256_digest(self.input.as_slice())
    }

    /// Feeds one byte.
    pub fn u8(&mut self, value: u8)
        ensures
            final(self)@ == old(self)@.push(value),
            final(self)@ == old(self)@ + seq![value],
    {
        self.input.push(value);
        assert(self.input@ =~= old(self)@ + seq![value]);
    }

    /// Feeds a boolean as one byte.
    pub fn boolean(&mut self, value: bool)
        ensures
            final(self)@ == old(self)@.push(if value { 1u8 } else { 0u8 }),
            final(self)@ == old(self)@ + seq![if value { 1u8 } else { 0u8 }],
    {
        self.u8(if value { 1 } else { 0 });
    }

    /// Feeds four little-endian bytes.
    pub fn u32(&mut self, value: u32)
        ensures
            final(self)@ == old(self)@ + le_bytes(value as nat, 4),
    {
        push_le(&mut self.input, value as u64, 4);
    }

    /// Feeds eight little-endian bytes.
    pub fn u64(&mut self, value: u64)
        ensures
            final(self)@ == old(self)@ + le_bytes(value as nat, 8),
    {
        push_le(&mut self.input, value, 8);
    }

    /// Feeds a size as eight little-endian bytes.
    pub fn usize(&mut self, value: usize)
        ensures
            final(self)@ == old(self)@ + le_bytes(value as nat, 8),
    {
        self.u64(value as u64);
    }

    /// Feeds bytes framed by their length.
    pub fn bytes(&mut self, value: &[u8])
        ensures
            final(self)@ == old(self)@ + framed(value@),
    {
        self.u64(value.len() as u64);
        push_all(&mut self.input, value);
        assert(final(self)@ =~= old(self)@ + framed(value@));
    }

    /// Feeds the UTF-8 bytes of a string framed by their length.
    pub fn string(&mut self, value: &str)
        ensures
            final(self)@ == old(self)@ + framed(value.spec_bytes()),
    {
        self.bytes(value.as_bytes());
    }

    /// Feeds an optional string.
    pub fn optional_string(&mut self, value: Option<&str>)
        ensures
            final(self)@ == old(self)@ + optional_field(match value {
                Some(s) => Some(framed(s.spec_bytes())),
                None => None,
            }),
    {
        match value {
            Some(text) => {
                self.u8(1);
                self.string(text);
                assert(final(self)@ =~= old(self)@ + (seq![1u8] + framed(text.spec_bytes())));
            },
            None => {
                self.u8(0);
                assert(final(self)@ =~= old(self)@ + seq![0u8]);
            },
        }
    }

    /// Feeds an optional four-byte value.
    pub fn optional_u32(&mut self, value: Option<u32>)
        ensures
            final(self)@ == old(self)@ + optional_field(match value {
                Some(v) => Some(le_bytes(v as nat, 4)),
                None => None,
            }),
    {
        match value {
            Some(v) => {
                self.u8(1);
                self.u32(v);
                assert(final(self)@ =~= old(self)@ + (seq![1u8] + le_bytes(v as nat, 4)));
            },
            None => {
                self.u8(0);
                assert(final(self)@ =~= old(self)@ + seq![0u8]);
            },
        }
    }

    /// Feeds an optional two-byte value widened to four bytes.
    pub fn optional_u16(&mut self, value: Option<u16>)
        ensures
            final(self)@ == old(self)@ + optional_field(match value {
                Some(v) => Some(le_bytes(v as nat, 4)),
                None => None,
            }),
    {
        let widened = match value {
            Some(v) => Some(v as u32),
            None => None,
        };
        self.optional_u32(widened);
    }

    /// Feeds an optional boolean.
    pub fn optional_bool(&mut self, value: Option<bool>)
        ensures
            final(self)@ == old(self)@ + optional_field(match value {
                Some(v) => Some(seq![if v { 1u8 } else { 0u8 }]),
                None => None,
            }),
    {
        match value {
            Some(v) => {
                self.u8(1);
                self.boolean(v);
                assert(final(self)@ =~= old(self)@ + (seq![1u8] + seq![if v { 1u8 } else { 0u8 }]));
            },
            None => {
                self.u8(0);
                assert(final(self)@ =~= old(self)@ + seq![0u8]);
            },
        }
    }

    /// Feeds a cell address: row then column.
    pub fn address(&mut self, value: CellAddress)
        ensures
            final(self)@ == old(self)@ + address_bytes(value@.row, value@.column),
    {
        self.u32(value.row());
        self.u32(value.column());
        assert(final(self)@ =~= old(self)@ + address_bytes(value@.row, value@.column));
    }

    /// Feeds a range: start address then end address.
    pub fn range(&mut self, value: CellRange)
        ensures
            final(self)@ == old(self)@ + address_bytes(value.start_spec()@.row, value.start_spec()@.column)
                + address_bytes(value.end_spec()@.row, value.end_spec()@.column),
    {
        self.address(value.start());
        self.address(value.end());
    }

    /// Feeds an optional cell address.
    pub fn optional_address(&mut self, value: Option<CellAddress>)
        ensures
            final(self)@ == old(self)@ + optional_field(match value {
                Some(a) => Some(address_bytes(a@.row, a@.column)),
                None => None,
            }),
    {
        match value {
            Some(a) => {
                self.u8(1);
                self.address(a);
                assert(final(self)@ =~= old(self)@ + (seq![1u8] + address_bytes(a@.row, a@.column)));
            },
            None => {
                self.u8(0);
                assert(final(self)@ =~= old(self)@ + seq![0u8]);
            },
        }
    }

    /// Feeds an optional range.
    pub fn optional_range(&mut self, value: Option<CellRange>)
        ensures
            final(self)@ == old(self)@ + optional_field(match value {
                Some(r) => Some(address_bytes(r.start_spec()@.row, r.start_spec()@.column)
                    + address_bytes(r.end_spec()@.row, r.end_spec()@.column)),
                None => None,
            }),
    {
        match value {
            Some(r) => {
                self.u8(1);
                self.range(r);
                assert(final(self)@ =~= old(self)@ + (seq![1u8] + (address_bytes(r.start_spec()@.row, r.start_spec()@.column)
                    + address_bytes(r.end_spec()@.row, r.end_spec()@.column))));
            },
            None => {
                self.u8(0);
                assert(final(self)@ =~= old(self)@ + seq![0u8]);
            },
        }
    }

    /// Feeds bytes framed by their length, polling `cancelled` before each 64 KiB chunk.
    pub fn bytes_cancellable<F: Fn() -> bool>(&mut self, value: &[u8], cancelled: &F) -> (r: Result<(), ()>)
        requires
            call_requires(*cancelled, ()),
        ensures
            r is Ok ==> final(self)@ == old(self)@ + framed(value@),
            r is Err ==> call_ensures(*cancelled, (), true),
    {
        self.u64(value.len() as u64);
        let ghost start = old(self)@ + le_bytes(value@.len() as nat, 8);
        let mut offset: usize = 0;
        while offset < value.len()
            invariant
                offset <= value@.len(),
                self.input@ == start + value@.take(offset as int),
                call_requires(*cancelled, ()),
            decreases value@.len() - offset,
        {
            if cancelled() {
                return Err(());
            }
            let end = if value.len() - offset > 65536 { offset + 65536 } else { value.len() };
            let ghost before = self.input@;
            let mut i = offset;
            while i < end
                invariant
                    offset <= i <= end <= value@.len(),
                    self.input@ == start + value@.take(i as int),
                decreases end - i,
            {
                self.input.push(value[i]);
                i = i + 1;
                assert(self.input@ =~= start + value@.take(i as int));
            }
            offset = end;
        }
        assert(value@.take(value@.len() as int) =~= value@);
        assert(final(self)@ =~= old(self)@ + framed(value@));
        Ok(())
    }

    /// Feeds the UTF-8 bytes of a string framed by their length, polling `cancelled`.
    pub fn string_cancellable<F: Fn() -> bool>(&mut self, value: &str, cancelled: &F) -> (r: Result<(), ()>)
        requires
            call_requires(*cancelled, ()),
        ensures
            r is Ok ==> final(self)@ == old(self)@ + framed(value.spec_bytes()),
            r is Err ==> call_ensures(*cancelled, (), true),
    {
        self.bytes_cancellable(value.as_bytes(), cancelled)
    }

    /// Feeds optional bytes, polling `cancelled`.
    pub fn optional_bytes_cancellable<F: Fn() -> bool>(&mut self, value: Option<&[u8]>, cancelled: &F) -> (r: Result<(), ()>)
        requires
            call_requires(*cancelled, ()),
        ensures
            r is Ok ==> final(self)@ == old(self)@ + optional_field(match value {
                Some(b) => Some(framed(b@)),
                None => None,
            }),
            r is Err ==> call_ensures(*cancelled, (), true),
    {
        match value {
            Some(bytes) => {
                self.u8(1);
                let r = self.bytes_cancellable(bytes, cancelled);
                assert(r is Ok ==> final(self)@ =~= old(self)@ + (seq![1u8] + framed(bytes@)));
                r
            },
            None => {
                self.u8(0);
                assert(final(self)@ =~= old(self)@ + seq![0u8]);
                Ok(())
            },
        }
    }

    /// Feeds an optional string, polling `cancelled`.
    pub fn optional_string_cancellable<F: Fn() -> bool>(&mut self, value: Option<&str>, cancelled: &F) -> (r: Result<(), ()>)
        requires
            call_requires(*cancelled, ()),
        ensures
            r is Ok ==> final(self)@ == old(self)@ + optional_field(match value {
                Some(s) => Some(framed(s.spec_bytes())),
                None => None,
            }),
            r is Err ==> call_ensures(*cancelled, (), true),
    {
        match value {
            Some(text) => {
                self.u8(1);
                let r = self.string_cancellable(text, cancelled);
                assert(r is Ok ==> final(self)@ =~= old(self)@ + (seq![1u8] + framed(text.spec_bytes())));
                r
            },
            None => {
                self.u8(0);
                assert(final(self)@ =~= old(self)@ + seq![0u8]);
                Ok(())
            },
        }
    }
}

} // verus!
