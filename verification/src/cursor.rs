//! Opaque report-local page cursors and their hexadecimal tokens.
use vstd::prelude::*;

use crate::report::{detail_section_code, detail_section_from_code, section_code_spec, TransactionDetailSection};
use crate::session::{SessionError, SessionErrorCode};
use crate::text::{chars_of, char_from_ascii, push_char};

verus! {

/// Number of bytes a cursor token encodes.
pub const TRANSACTION_CURSOR_TOKEN_BYTES: usize = 27;

/// Number of hexadecimal characters of a cursor token.
pub const TRANSACTION_CURSOR_TOKEN_HEX_BYTES: usize = 54;

/// `256` raised to `n`.
pub open spec fn pow256(n: nat) -> nat
    decreases n,
{
    if n == 0 { 1 } else { 256 * pow256((n - 1) as nat) }
}

/// The low `n` bytes of `v`, most significant first.
pub open spec fn be_bytes(v: nat, n: nat) -> Seq<u8>
    decreases n,
{
    if n == 0 {
        Seq::empty()
    } else {
        be_bytes(v / 256, (n - 1) as nat).push((v % 256) as u8)
    }
}

/// The number that big-endian `bytes` encode.
pub open spec fn be_value(bytes: Seq<u8>) -> nat
    decreases bytes.len(),
{
    if bytes.len() == 0 {
        0
    } else {
        be_value(bytes.drop_last()) * 256 + bytes.last() as nat
    }
}

/// Lowercase hexadecimal digit of a value below sixteen.
pub open spec fn hex_digit(n: nat) -> char {
    if n < 10 { (48 + n) as char } else { (87 + n) as char }
}

/// Two lowercase hexadecimal digits per byte, most significant digit first.
pub open spec fn hex_encode(bytes: Seq<u8>) -> Seq<char>
    decreases bytes.len(),
{
    if bytes.len() == 0 {
        Seq::empty()
    } else {
        hex_encode(bytes.drop_last()) + seq![hex_digit(bytes.last() as nat / 16), hex_digit(bytes.last() as nat % 16)]
    }
}

/// Value of a lowercase hexadecimal digit.
pub open spec fn nibble_spec(c: char) -> Option<nat> {
    if '0' <= c <= '9' {
        Some((c as nat - 48) as nat)
    } else if 'a' <= c <= 'f' {
        Some((c as nat - 87) as nat)
    } else {
        None
    }
}

/// Bytes of a token whose every character is a lowercase hexadecimal digit.
pub open spec fn hex_bytes(token: Seq<char>) -> Seq<u8> {
    Seq::new(token.len() / 2, |i: int| (nibble_spec(token[2 * i])->0 * 16 + nibble_spec(token[2 * i + 1])->0) as u8)
}

/// The bytes a cursor encodes: contract version, report identity, section code, offset and
/// authenticator, each big-endian.
pub open spec fn cursor_bytes(version: u16, identity: u64, code: u8, offset: u64, authenticator: u64) -> Seq<u8> {
    be_bytes(version as nat, 2) + be_bytes(identity as nat, 8) + seq![code] + be_bytes(offset as nat, 8)
        + be_bytes(authenticator as nat, 8)
}

/// Opaque report-local cursor for one transaction detail section.
#[derive(Debug, Clone, Copy, PartialEq, Eq, Structural)]
pub struct TransactionPageCursor {
    report_identity: u64,
    contract_version: u16,
    section: TransactionDetailSection,
    offset: usize,
    authenticator: u64,
}

/// Fields a token decodes to: contract version, report identity, section, offset, authenticator.
pub open spec fn decode_token(token: Seq<char>) -> Option<(u16, u64, TransactionDetailSection, usize, u64)> {
    let bytes = hex_bytes(token);
    let code = bytes[10];
    let offset = be_value(bytes.subrange(11, 19));
    if token.len() != 54 || !(forall|i: int| 0 <= i < token.len() ==> (#[trigger] nibble_spec(token[i])) is Some) {
        None
    } else if !(1 <= code <= 5) || offset > usize::MAX {
        None
    } else {
        Some((
            be_value(bytes.subrange(0, 2)) as u16,
            be_value(bytes.subrange(2, 10)) as u64,
            choose|s: TransactionDetailSection| section_code_spec(s) == code,
            offset as usize,
            be_value(bytes.subrange(19, 27)) as u64,
        ))
    }
}

impl TransactionPageCursor {
    pub closed spec fn identity_spec(self) -> u64 {
        self.report_identity
    }

    pub closed spec fn version_spec(self) -> u16 {
        self.contract_version
    }

    pub closed spec fn section_spec(self) -> TransactionDetailSection {
        self.section
    }

    pub closed spec fn offset_spec(self) -> usize {
        self.offset
    }

    pub closed spec fn authenticator_spec(self) -> u64 {
        self.authenticator
    }

    /// The token text of the cursor.
    pub open spec fn token_spec(self) -> Seq<char> {
        hex_encode(cursor_bytes(
            self.version_spec(),
            self.identity_spec(),
            section_code_spec(self.section_spec()),
            self.offset_spec() as u64,
            self.authenticator_spec(),
        ))
    }

    /// Builds a cursor from its parts.
    pub fn new(
        report_identity: u64,
        contract_version: u16,
        section: TransactionDetailSection,
        offset: usize,
        authenticator: u64,
    ) -> (r: Self)
        ensures
            r.identity_spec() == report_identity,
            r.version_spec() == contract_version,
            r.section_spec() == section,
            r.offset_spec() == offset,
            r.authenticator_spec() == authenticator,
    {
        TransactionPageCursor { report_identity, contract_version, section, offset, authenticator }
    }

    /// Returns the identity of the report the cursor belongs to.
    pub fn report_identity(&self) -> (r: u64)
        ensures
            r == self.identity_spec(),
    {
        self.report_identity
    }

    /// Returns the contract version the cursor was issued under.
    pub fn contract_version(&self) -> (r: u16)
        ensures
            r == self.version_spec(),
    {
        self.contract_version
    }

    /// Returns the section the cursor pages through.
    pub fn section(&self) -> (r: TransactionDetailSection)
        ensures
            r == self.section_spec(),
    {
        self.section
    }

    /// Returns the position of the next item.
    pub fn offset(&self) -> (r: usize)
        ensures
            r == self.offset_spec(),
    {
        self.offset
    }

    /// Returns the authenticator that binds the cursor to its report.
    pub fn authenticator(&self) -> (r: u64)
        ensures
            r == self.authenticator_spec(),
    {
        self.authenticator
    }

    /// Returns the opaque lowercase hexadecimal token used for interop round trips.
    pub fn to_token(&self) -> (r: String)
        ensures
            r@ == self.token_spec(),
    {
        let mut bytes: Vec<u8> = Vec::new();
        push_be(&mut bytes, self.contract_version as u64, 2);
        push_be(&mut bytes, self.report_identity, 8);
        bytes.push(detail_section_code(self.section));
        push_be(&mut bytes, self.offset as u64, 8);
        push_be(&mut bytes, self.authenticator, 8);
        assert(bytes@ =~= cursor_bytes(
            self.contract_version,
            self.report_identity,
            section_code_spec(self.section),
            self.offset as u64,
            self.authenticator,
        ));
        hex_string(&bytes)
    }

    /// Reads a cursor back from its token; a token of the wrong length, with a character that is
    /// not a lowercase hexadecimal digit, an unknown section code or an offset that does not fit
    /// is refused with `TransactionCursorInvalid`.
    pub fn from_token(token: &str) -> (r: Result<Self, SessionError>)
        ensures
            match decode_token(token@) {
                Some((version, identity, section, offset, authenticator)) => r matches Ok(c)
                    && c.version_spec() == version && c.identity_spec() == identity && c.section_spec() == section
                    && c.offset_spec() == offset && c.authenticator_spec() == authenticator,
                None => r matches Err(e) && e.code_spec() == SessionErrorCode::TransactionCursorInvalid
                    && e.detail_spec() is None,
            },
    {
        let chars = chars_of(token);
        let ghost t = token@;
        if chars.len() != TRANSACTION_CURSOR_TOKEN_HEX_BYTES {
            return Err(invalid_cursor());
        }
        let mut bytes: Vec<u8> = Vec::new();
        let mut i: usize = 0;
        while i < TRANSACTION_CURSOR_TOKEN_BYTES
            invariant
                chars@ == t,
                t == token@,
                t.len() == 54,
                i <= 27,
                bytes@.len() == i,
                forall|k: int| 0 <= k < 2 * i ==> (#[trigger] nibble_spec(t[k])) is Some,
                forall|k: int| 0 <= k < i ==> #[trigger] bytes@[k] == hex_bytes(t)[k],
            decreases 27 - i,
        {
            let high = match hex_nibble(chars[2 * i]) {
                Some(v) => v,
                None => {
                    assert(nibble_spec(t[2 * i as int]) is None);
                    return Err(invalid_cursor());
                },
            };
            let low = match hex_nibble(chars[2 * i + 1]) {
                Some(v) => v,
                None => {
                    assert(nibble_spec(t[2 * i as int + 1]) is None);
                    return Err(invalid_cursor());
                },
            };
            bytes.push(high * 16 + low);
            proof {
                assert forall|k: int| 0 <= k < 2 * (i + 1) implies (#[trigger] nibble_spec(t[k])) is Some by {
                    if k == 2 * i {
                    } else if k == 2 * i + 1 {
                    }
                }
            }
            i = i + 1;
        }
        assert(bytes@ =~= hex_bytes(t));
        let version = read_be(&bytes, 0, 2);
        let identity = read_be(&bytes, 2, 8);
        let section = match detail_section_from_code(bytes[10]) {
            Some(s) => s,
            None => return Err(invalid_cursor()),
        };
        let wire_offset = read_be(&bytes, 11, 8);
        if wire_offset > usize::MAX as u64 {
            return Err(invalid_cursor());
        }
        let authenticator = read_be(&bytes, 19, 8);
        proof {
            lemma_be_value_bound(bytes@.subrange(0, 2));
            assert(pow256(2) == 65536) by {
                reveal_with_fuel(pow256, 3);
            }
            let chosen = choose|s: TransactionDetailSection| section_code_spec(s) == bytes@[10];
            crate::report::lemma_section_code_injective(chosen, section);
        }
        Ok(TransactionPageCursor {
            report_identity: identity,
            contract_version: version as u16,
            section,
            offset: wire_offset as usize,
            authenticator,
        })
    }
}

fn invalid_cursor() -> (r: SessionError)
    ensures
        r.code_spec() == SessionErrorCode::TransactionCursorInvalid,
        r.detail_spec() is None,
{
    SessionError::new(SessionErrorCode::TransactionCursorInvalid, None)
}

/// Value of a lowercase hexadecimal digit.
pub fn hex_nibble(c: char) -> (r: Option<u8>)
    ensures
        match nibble_spec(c) {
            Some(v) => r == Some(v as u8) && v < 16,
            None => r is None,
        },
{
    if '0' <= c && c <= '9' {
        Some(((c as u32) - 48) as u8)
    } else if 'a' <= c && c <= 'f' {
        Some(((c as u32) - 87) as u8)
    } else {
        None
    }
}

/// Whether `token` decodes to exactly the fields of `c`.
pub open spec fn token_decodes_to(token: Seq<char>, c: TransactionPageCursor) -> bool {
    decode_token(token) == Some((
        c.version_spec(),
        c.identity_spec(),
        c.section_spec(),
        c.offset_spec(),
        c.authenticator_spec(),
    ))
}

/// Appends the low `n` bytes of `v`, most significant first.
pub(crate) fn push_be(out: &mut Vec<u8>, v: u64, n: usize)
    ensures
        final(out)@ == old(out)@ + be_bytes(v as nat, n as nat),
    decreases n,
{
    if n > 0 {
        push_be(out, v / 256, n - 1);
        out.push((v % 256) as u8);
        assert(final(out)@ =~= old(out)@ + be_bytes(v as nat, n as nat));
    } else {
        assert(final(out)@ =~= old(out)@ + be_bytes(v as nat, n as nat));
    }
}

/// Reads `n` big-endian bytes from `bytes[start..]`.
fn read_be(bytes: &Vec<u8>, start: usize, n: usize) -> (r: u64)
    requires
        n <= 8,
        start + n <= bytes@.len(),
    ensures
        r == be_value(bytes@.subrange(start as int, start + n)),
{
    let mut value: u64 = 0;
    let mut k: usize = 0;
    let len = bytes.len();
    while k < n
        invariant
            len == bytes@.len(),
            n <= 8,
            start + n <= bytes@.len(),
            k <= n,
            value == be_value(bytes@.subrange(start as int, start + k)),
        decreases n - k,
    {
        proof {
            lemma_be_value_bound(bytes@.subrange(start as int, start + k));
            lemma_pow256_mono(k as nat, 7);
            assert(pow256(7) == 0x100_0000_0000_0000) by {
                reveal_with_fuel(pow256, 8);
            }
            assert(bytes@.subrange(start as int, start + k + 1).drop_last() =~= bytes@.subrange(start as int, start + k));
        }
        value = value * 256 + bytes[start + k] as u64;
        k = k + 1;
    }
    value
}

/// Lowercase hexadecimal text of `bytes`.
fn hex_string(bytes: &Vec<u8>) -> (r: String)
    ensures
        r@ == hex_encode(bytes@),
{
    let mut out = String::new();
    let mut i: usize = 0;
    while i < bytes.len()
        invariant
            i <= bytes@.len(),
            out@ == hex_encode(bytes@.take(i as int)),
        decreases bytes@.len() - i,
    {
        let b = bytes[i];
        push_char(&mut out, hex_char(b / 16));
        push_char(&mut out, hex_char(b % 16));
        proof {
            assert(bytes@.take(i + 1).drop_last() =~= bytes@.take(i as int));
        }
        i = i + 1;
        assert(out@ =~= hex_encode(bytes@.take(i as int)));
    }
    assert(bytes@.take(bytes@.len() as int) =~= bytes@);
    out
}

fn hex_char(n: u8) -> (r: char)
    requires
        n < 16,
    ensures
        r == hex_digit(n as nat),
{
    if n < 10 {
        char_from_ascii(48 + n as u32)
    } else {
        char_from_ascii(87 + n as u32)
    }
}

proof fn lemma_pow256_mono(a: nat, b: nat)
    requires
        a <= b,
    ensures
        pow256(a) <= pow256(b),
        pow256(a) >= 1,
    decreases b,
{
    if a < b {
        lemma_pow256_mono(a, (b - 1) as nat);
    } else if a > 0 {
        lemma_pow256_mono((a - 1) as nat, (a - 1) as nat);
    }
}

proof fn lemma_be_value_bound(bytes: Seq<u8>)
    ensures
        be_value(bytes) < pow256(bytes.len()),
    decreases bytes.len(),
{
    if bytes.len() > 0 {
        let front = bytes.drop_last();
        lemma_be_value_bound(front);
        let v = be_value(front);
        let p = pow256(front.len());
        assert(v * 256 + bytes.last() < 256 * p) by (nonlinear_arith)
            requires
                v < p,
                bytes.last() < 256,
        ;
    }
}

proof fn lemma_be_bytes_len(v: nat, n: nat)
    ensures
        be_bytes(v, n).len() == n,
    decreases n,
{
    if n > 0 {
        lemma_be_bytes_len(v / 256, (n - 1) as nat);
    }
}

proof fn lemma_be_round_trip(v: nat, n: nat)
    requires
        v < pow256(n),
    ensures
        be_value(be_bytes(v, n)) == v,
    decreases n,
{
    if n > 0 {
        let p = pow256((n - 1) as nat);
        assert(v / 256 < p) by (nonlinear_arith)
            requires
                v < 256 * p,
        ;
        lemma_be_round_trip(v / 256, (n - 1) as nat);
        let bytes = be_bytes(v, n);
        assert(bytes.drop_last() =~= be_bytes(v / 256, (n - 1) as nat));
        assert((v / 256) * 256 + v % 256 == v) by (nonlinear_arith);
    }
}

proof fn lemma_hex_encode(bytes: Seq<u8>)
    ensures
        hex_encode(bytes).len() == 2 * bytes.len(),
        forall|i: int| 0 <= i < bytes.len() ==> hex_encode(bytes)[2 * i] == hex_digit(#[trigger] bytes[i] as nat / 16)
            && hex_encode(bytes)[2 * i + 1] == hex_digit(bytes[i] as nat % 16),
    decreases bytes.len(),
{
    if bytes.len() > 0 {
        let front = bytes.drop_last();
        lemma_hex_encode(front);
        assert forall|i: int| 0 <= i < bytes.len() implies hex_encode(bytes)[2 * i] == hex_digit(#[trigger] bytes[i] as nat / 16)
            && hex_encode(bytes)[2 * i + 1] == hex_digit(bytes[i] as nat % 16) by {
            if i < front.len() {
                assert(front[i] == bytes[i]);
            }
        }
    }
}

proof fn lemma_nibble_of_digit(k: nat)
    requires
        k < 16,
    ensures
        nibble_spec(hex_digit(k)) == Some(k),
{
}

/// Reading a cursor back from its token gives the cursor: every field survives the round trip.
pub proof fn lemma_token_round_trip(c: TransactionPageCursor)
    ensures
        decode_token(c.token_spec()) == Some((
            c.version_spec(),
            c.identity_spec(),
            c.section_spec(),
            c.offset_spec(),
            c.authenticator_spec(),
        )),
{
    let code = section_code_spec(c.section_spec());
    let version = c.version_spec() as nat;
    let identity = c.identity_spec() as nat;
    let offset = c.offset_spec() as u64 as nat;
    let auth = c.authenticator_spec() as nat;
    let bytes = cursor_bytes(c.version_spec(), c.identity_spec(), code, c.offset_spec() as u64, c.authenticator_spec());
    let token = c.token_spec();
    lemma_be_bytes_len(version, 2);
    lemma_be_bytes_len(identity, 8);
    lemma_be_bytes_len(offset, 8);
    lemma_be_bytes_len(auth, 8);
    assert(bytes.len() == 27);
    lemma_hex_encode(bytes);
    assert(token.len() == 54);
    assert forall|i: int| 0 <= i < token.len() implies (#[trigger] nibble_spec(token[i])) is Some by {
        let j = i / 2;
        assert(0 <= j < 27);
        assert(bytes[j] as nat / 16 < 16 && bytes[j] as nat % 16 < 16);
        lemma_nibble_of_digit(bytes[j] as nat / 16);
        lemma_nibble_of_digit(bytes[j] as nat % 16);
        if i == 2 * j {
            assert(token[2 * j] == hex_digit(bytes[j] as nat / 16));
        } else {
            assert(i == 2 * j + 1);
            assert(token[2 * j + 1] == hex_digit(bytes[j] as nat % 16));
        }
    }
    let decoded = hex_bytes(token);
    assert forall|j: int| 0 <= j < 27 implies #[trigger] decoded[j] == bytes[j] by {
        lemma_nibble_of_digit(bytes[j] as nat / 16);
        lemma_nibble_of_digit(bytes[j] as nat % 16);
        assert(token[2 * j] == hex_digit(bytes[j] as nat / 16));
        assert(token[2 * j + 1] == hex_digit(bytes[j] as nat % 16));
        assert((bytes[j] as nat / 16) * 16 + bytes[j] as nat % 16 == bytes[j] as nat) by (nonlinear_arith);
    }
    assert(decoded =~= bytes);
    assert(pow256(2) == 65536) by {
        reveal_with_fuel(pow256, 3);
    }
    assert(pow256(8) == 0x1_0000_0000_0000_0000) by {
        reveal_with_fuel(pow256, 9);
    }
    lemma_be_round_trip(version, 2);
    lemma_be_round_trip(identity, 8);
    lemma_be_round_trip(offset, 8);
    lemma_be_round_trip(auth, 8);
    assert(bytes.subrange(0, 2) =~= be_bytes(version, 2));
    assert(bytes.subrange(2, 10) =~= be_bytes(identity, 8));
    assert(bytes[10] == code);
    assert(bytes.subrange(11, 19) =~= be_bytes(offset, 8));
    assert(bytes.subrange(19, 27) =~= be_bytes(auth, 8));
    let chosen = choose|s: TransactionDetailSection| section_code_spec(s) == code;
    crate::report::lemma_section_code_injective(chosen, c.section_spec());
}

} // verus!
