use core::marker::PhantomData;
use vstd::prelude::*;
use vstd::string::StringSliceAdditionalSpecFns;
use crate::error::IsoError;

verus! {

/// A set of bytes that an identifier field may hold.
pub trait Charset: Copy + PartialEq + Eq {
    /// Whether the byte `c` belongs to the set.
    spec fn allows(c: u8) -> bool;

    /// Whether every byte of `chars` belongs to the set.
    fn is_valid(chars: &[u8]) -> (ok: bool)
        ensures
            ok == (forall|i: int| 0 <= i < chars@.len() ==> Self::allows(#[trigger] chars@[i])),
    ;
}

/// Whether every byte of `s` belongs to the character set `C`.
pub open spec fn all_allowed<C: Charset>(s: Seq<u8>) -> bool {
    forall|i: int| 0 <= i < s.len() ==> C::allows(#[trigger] s[i])
}

/// Upper-case letter `A` to `Z`.
pub open spec fn is_upper(c: u8) -> bool {
    0x41 <= c <= 0x5A
}

/// Lower-case letter `a` to `z`.
pub open spec fn is_lower(c: u8) -> bool {
    0x61 <= c <= 0x7A
}

/// Decimal digit `0` to `9`.
pub open spec fn is_digit(c: u8) -> bool {
    0x30 <= c <= 0x39
}

/// The a-characters: upper-case letters, digits, space and `!"%&'()*+,-./:;<=>?`.
#[derive(Copy, Clone, PartialEq, Eq)]
pub struct CharsetA;

/// The d-characters: upper-case letters, digits and underscore.
#[derive(Copy, Clone, PartialEq, Eq)]
pub struct CharsetD;

/// The characters of a file identifier: the d-characters, lower-case letters, `.` and `/`.
#[derive(Copy, Clone, PartialEq, Eq)]
pub struct CharsetFile;

impl Charset for CharsetA {
    open spec fn allows(c: u8) -> bool {
        is_upper(c) || is_digit(c) || c == 0x20 || c == 0x21 || c == 0x22 || (0x25 <= c <= 0x2F)
            || (0x3A <= c <= 0x3F)
    }

    fn is_valid(chars: &[u8]) -> (ok: bool) {
        let mut i: usize = 0;
        while i < chars.len()
            invariant
                i <= chars@.len(),
                forall|j: int| 0 <= j < i ==> Self::allows(#[trigger] chars@[j]),
            decreases chars@.len() - i,
        {
            let c: u8 = chars[i];
            let ok = (0x41 <= c && c <= 0x5A) || (0x30 <= c && c <= 0x39) || c == 0x20 || c == 0x21
                || c == 0x22 || (0x25 <= c && c <= 0x2F) || (0x3A <= c && c <= 0x3F);
            if !ok {
                return false;
            }
            i += 1;
        }
        true
    }
}

impl Charset for CharsetD {
    open spec fn allows(c: u8) -> bool {
        is_upper(c) || is_digit(c) || c == 0x5F
    }

    fn is_valid(chars: &[u8]) -> (ok: bool) {
        let mut i: usize = 0;
        while i < chars.len()
            invariant
                i <= chars@.len(),
                forall|j: int| 0 <= j < i ==> Self::allows(#[trigger] chars@[j]),
            decreases chars@.len() - i,
        {
            let c: u8 = chars[i];
            let ok = (0x41 <= c && c <= 0x5A) || (0x30 <= c && c <= 0x39) || c == 0x5F;
            if !ok {
                return false;
            }
            i += 1;
        }
        true
    }
}

impl Charset for CharsetFile {
    open spec fn allows(c: u8) -> bool {
        is_upper(c) || is_lower(c) || is_digit(c) || c == 0x5F || c == 0x2E || c == 0x2F
    }

    fn is_valid(chars: &[u8]) -> (ok: bool) {
        let mut i: usize = 0;
        while i < chars.len()
            invariant
                i <= chars@.len(),
                forall|j: int| 0 <= j < i ==> Self::allows(#[trigger] chars@[j]),
            decreases chars@.len() - i,
        {
            let c: u8 = chars[i];
            let ok = (0x41 <= c && c <= 0x5A) || (0x61 <= c && c <= 0x7A) || (0x30 <= c && c
                <= 0x39) || c == 0x5F || c == 0x2E || c == 0x2F;
            if !ok {
                return false;
            }
            i += 1;
        }
        true
    }
}

/// The file identifier characters hold every d-character.
pub proof fn file_chars_hold_d_chars(c: u8)
    requires
        CharsetD::allows(c),
    ensures
        CharsetFile::allows(c),
{
}

/// The index of the first space in `s` at or after `from`, or the length of `s` where
/// no space follows.
pub open spec fn first_space(s: Seq<u8>, from: int) -> int
    decreases s.len() - from,
{
    if from < 0 || from >= s.len() {
        s.len() as int
    } else if s[from] == 0x20 {
        from
    } else {
        first_space(s, from + 1)
    }
}

/// `text` followed by as many spaces as it takes to fill `n` bytes.
pub open spec fn space_padded(text: Seq<u8>, n: nat) -> Seq<u8> {
    Seq::new(n, |i: int| if i < text.len() { text[i] } else { 0x20u8 })
}

/// Whether every byte of `bytes` is an ASCII character.
pub open spec fn all_ascii(bytes: Seq<u8>) -> bool {
    forall|i: int| 0 <= i < bytes.len() ==> #[trigger] bytes[i] < 0x80
}

/// The text with one character for each byte of `bytes`.
pub open spec fn ascii_text(bytes: Seq<u8>) -> Seq<char> {
    Seq::new(bytes.len(), |i: int| bytes[i] as char)
}

/// `String::from_utf8_lossy` of std, made into a `String` of its own: the text that
/// `bytes` hold in UTF-8. Bytes that are ASCII characters throughout are valid UTF-8
/// and give one character each; of other bytes nothing is said here.
#[verifier::external_body]
fn lossy_text(bytes: &[u8]) -> (text: String)
    ensures
        all_ascii(bytes@) ==> text@ == ascii_text(bytes@),
{
    String::from_utf8_lossy(bytes).into_owned()
}

/// The text that stands for the identifier `chars`, of which the bytes before
/// `len` count: `\x00` and `\x01` for the one-byte identifiers zero and one, which
/// name a directory itself and its parent, and else the text of the bytes.
fn identifier_text(chars: &[u8], len: usize) -> (text: String)
    requires
        len <= chars@.len(),
    ensures
        text@ == shown(chars@, len as int) || !all_ascii(chars@.subrange(0, len as int)),
{
    if chars.len() == 1 && chars[0] == 0 {
        "\\x00".to_owned()
    } else if chars.len() == 1 && chars[0] == 1 {
        "\\x01".to_owned()
    } else {
        lossy_text(vstd::slice::slice_subrange(chars, 0, len))
    }
}

/// The text that stands for the identifier `chars`, of which the bytes before
/// `len` count.
pub open spec fn shown(chars: Seq<u8>, len: int) -> Seq<char> {
    if chars.len() == 1 && chars[0] == 0 {
        "\\x00"@
    } else if chars.len() == 1 && chars[0] == 1 {
        "\\x01"@
    } else {
        ascii_text(chars.subrange(0, len))
    }
}

/// Finds the first space of `chars`.
fn position_of_space(chars: &[u8]) -> (at: usize)
    ensures
        at == first_space(chars@, 0),
        at <= chars@.len(),
{
    let mut i: usize = 0;
    while i < chars.len()
        invariant
            i <= chars@.len(),
            first_space(chars@, 0) == first_space(chars@, i as int),
        decreases chars@.len() - i,
    {
        if chars[i] == 0x20 {
            return i;
        }
        i += 1;
    }
    i
}

/// A string of exactly `N` bytes over the character set `C`, filled up with spaces.
#[derive(Copy)]
pub struct IsoStr<C: Charset, const N: usize> {
    chars: [u8; N],
    _marker: PhantomData<C>,
}

impl<C: Charset, const N: usize> Clone for IsoStr<C, N> {
    fn clone(&self) -> (copy: Self)
        ensures
            copy == *self,
    {
        *self
    }
}

impl<C: Charset, const N: usize> IsoStr<C, N> {
    /// The `N` bytes of the field.
    pub closed spec fn bytes(&self) -> Seq<u8> {
        self.chars@
    }

    /// The field always holds `N` bytes.
    pub proof fn bytes_len(&self)
        ensures
            self.bytes().len() == N,
    {
    }

    /// A field of spaces.
    pub fn empty() -> (s: Self)
        ensures
            s.bytes() == space_padded(Seq::empty(), N as nat),
    {
        let s = Self { chars: [0x20u8; N], _marker: PhantomData };
        assert(s.chars@ =~= space_padded(Seq::empty(), N as nat));
        s
    }

    /// The number of bytes in a field.
    pub fn max_len() -> (n: usize)
        ensures
            n == N,
    {
        N
    }

    /// The number of bytes before the first space.
    pub fn len(&self) -> (n: usize)
        ensures
            n == first_space(self.bytes(), 0),
            n <= N,
    {
        position_of_space(self.chars.as_slice())
    }

    /// The text of the field up to its first space; for the one-byte fields zero and
    /// one, `\x00` and `\x01`. The result is told for fields that hold ASCII.
    pub fn to_str(&self) -> (text: String)
        ensures
            all_ascii(self.bytes().subrange(0, first_space(self.bytes(), 0))) ==> text@ == shown(
                self.bytes(),
                first_space(self.bytes(), 0),
            ),
    {
        let len = self.len();
        identifier_text(self.chars.as_slice(), len)
    }

    /// The field that holds exactly `bytes`, whatever they are.
    pub fn from_bytes_exact(bytes: [u8; N]) -> (s: Self)
        ensures
            s.bytes() == bytes@,
    {
        Self { chars: bytes, _marker: PhantomData }
    }

    /// Appends the bytes of the field to `out`.
    pub fn store(&self, out: &mut Vec<u8>)
        ensures
            final(out)@ == old(out)@ + self.bytes(),
    {
        out.extend_from_slice(self.chars.as_slice());
    }

    /// The field that holds the `N` bytes of `bytes` from `at` on, whatever they are.
    pub fn load(bytes: &[u8], at: usize) -> (s: Self)
        requires
            at + N <= bytes@.len(),
        ensures
            s.bytes() == bytes@.subrange(at as int, at + N),
    {
        Self { chars: crate::raw::load_array::<N>(bytes, at), _marker: PhantomData }
    }

    /// The field that holds `text`, padded with spaces, whatever its bytes are.
    pub fn padded(text: &[u8]) -> (s: Self)
        requires
            text@.len() <= N,
        ensures
            s.bytes() == space_padded(text@, N as nat),
    {
        let mut chars = [0x20u8; N];
        let mut i: usize = 0;
        while i < text.len()
            invariant
                i <= text@.len() <= N,
                forall|j: int| 0 <= j < i ==> chars@[j] == text@[j],
                forall|j: int| i <= j < N ==> chars@[j] == 0x20u8,
            decreases text@.len() - i,
        {
            chars[i] = text[i];
            i += 1;
        }
        let s = Self { chars, _marker: PhantomData };
        proof {
            assert(s.chars@ =~= space_padded(text@, N as nat));
        }
        s
    }

    /// Whether two fields hold the same bytes.
    pub fn same(&self, other: &Self) -> (same: bool)
        ensures
            same == (self.bytes() == other.bytes()),
    {
        crate::raw::same_bytes(self.chars.as_slice(), other.chars.as_slice())
    }

    /// The bytes of the field, as a slice.
    pub fn as_bytes(&self) -> (b: &[u8])
        ensures
            b@ == self.bytes(),
    {
        self.chars.as_slice()
    }

    /// The error with which building a field from `text` fails, if it does:
    /// `IdentifierTooLong` where `text` has more than `N` bytes, and otherwise
    /// `InvalidCharacter` where a byte of `text` is outside `C`.
    pub open spec fn rejection(text: Seq<u8>) -> Option<IsoError> {
        if text.len() > N {
            Some(IsoError::IdentifierTooLong)
        } else if !all_allowed::<C>(text) {
            Some(IsoError::InvalidCharacter)
        } else {
            None
        }
    }

    /// The field that holds the bytes of `s`, padded with spaces.
    pub fn from_str(s: &str) -> (r: Result<Self, IsoError>)
        ensures
            r is Ok <==> Self::rejection(s.spec_bytes()) is None,
            r matches Ok(field) ==> field.bytes() == space_padded(s.spec_bytes(), N as nat),
            r matches Err(e) ==> Self::rejection(s.spec_bytes()) == Some(e),
    {
        Self::from_bytes(s.as_bytes())
    }

    /// Like `from_str`, on bytes.
    pub fn from_bytes(text: &[u8]) -> (r: Result<Self, IsoError>)
        ensures
            r is Ok <==> Self::rejection(text@) is None,
            r matches Ok(field) ==> field.bytes() == space_padded(text@, N as nat),
            r matches Err(e) ==> Self::rejection(text@) == Some(e),
    {
        if text.len() > N {
            return Err(IsoError::IdentifierTooLong);
        }
        if !C::is_valid(text) {
            return Err(IsoError::InvalidCharacter);
        }
        let mut chars = [0x20u8; N];
        let mut i: usize = 0;
        while i < text.len()
            invariant
                i <= text@.len() <= N,
                forall|j: int| 0 <= j < i ==> chars@[j] == text@[j],
                forall|j: int| i <= j < N ==> chars@[j] == 0x20u8,
            decreases text@.len() - i,
        {
            chars[i] = text[i];
            i += 1;
        }
        let s = Self { chars, _marker: PhantomData };
        proof {
            assert(s.chars@ =~= space_padded(text@, N as nat));
        }
        Ok(s)
    }
}

/// A string of bytes over the character set `C`, of any length.
pub struct IsoString<C: Charset> {
    chars: Vec<u8>,
    _marker: PhantomData<C>,
}

impl<C: Charset> Clone for IsoString<C> {
    fn clone(&self) -> (copy: Self)
        ensures
            copy@ == self@,
    {
        Self { chars: self.chars.clone(), _marker: PhantomData }
    }
}

impl<C: Charset> View for IsoString<C> {
    type V = Seq<u8>;

    closed spec fn view(&self) -> Seq<u8> {
        self.chars@
    }
}

impl<C: Charset> IsoString<C> {
    /// The string without bytes.
    pub fn empty() -> (s: Self)
        ensures
            s@ == Seq::<u8>::empty(),
    {
        Self { chars: Vec::new(), _marker: PhantomData }
    }

    /// The string without bytes, with room for `capacity` of them.
    pub fn with_capacity(capacity: usize) -> (s: Self)
        ensures
            s@ == Seq::<u8>::empty(),
    {
        Self { chars: Vec::with_capacity(capacity), _marker: PhantomData }
    }

    /// The string that holds `bytes`, whatever they are.
    pub fn from_bytes(bytes: &[u8]) -> (s: Self)
        ensures
            s@ == bytes@,
    {
        let mut chars: Vec<u8> = Vec::new();
        chars.extend_from_slice(bytes);
        Self { chars, _marker: PhantomData }
    }

    /// The number of bytes before the first space.
    pub fn len(&self) -> (n: usize)
        ensures
            n == first_space(self@, 0),
            n <= self@.len(),
    {
        position_of_space(self.chars.as_slice())
    }

    /// All the bytes of the string.
    pub fn bytes(&self) -> (b: &[u8])
        ensures
            b@ == self@,
    {
        self.chars.as_slice()
    }

    /// The text of the string up to its first space; for the one-byte strings zero
    /// and one, `\x00` and `\x01`. The result is told for strings that hold ASCII.
    pub fn to_str(&self) -> (text: String)
        ensures
            all_ascii(self@.subrange(0, first_space(self@, 0))) ==> text@ == shown(
                self@,
                first_space(self@, 0),
            ),
    {
        let len = self.len();
        identifier_text(self.chars.as_slice(), len)
    }

    /// Whether every byte of the string belongs to `C`.
    pub fn is_valid(&self) -> (ok: bool)
        ensures
            ok == all_allowed::<C>(self@),
    {
        C::is_valid(self.chars.as_slice())
    }
}

/// The number that two bytes hold, least significant byte first.
pub open spec fn le_u16(b: Seq<u8>) -> u16 {
    (b[0] as int + 0x100 * (b[1] as int)) as u16
}

/// The number that two bytes hold, most significant byte first.
pub open spec fn be_u16(b: Seq<u8>) -> u16 {
    (b[1] as int + 0x100 * (b[0] as int)) as u16
}

/// The two bytes of `v`, least significant byte first.
pub open spec fn u16_le(v: u16) -> Seq<u8> {
    seq![(v % 0x100) as u8, (v / 0x100) as u8]
}

/// The two bytes of `v`, most significant byte first.
pub open spec fn u16_be(v: u16) -> Seq<u8> {
    seq![(v / 0x100) as u8, (v % 0x100) as u8]
}

/// The number that four bytes hold, least significant byte first.
pub open spec fn le_u32(b: Seq<u8>) -> u32 {
    (b[0] as int + 0x100 * (b[1] as int) + 0x1_0000 * (b[2] as int) + 0x100_0000 * (
    b[3] as int)) as u32
}

/// The number that four bytes hold, most significant byte first.
pub open spec fn be_u32(b: Seq<u8>) -> u32 {
    (b[3] as int + 0x100 * (b[2] as int) + 0x1_0000 * (b[1] as int) + 0x100_0000 * (
    b[0] as int)) as u32
}

/// The four bytes of `v`, least significant byte first.
pub open spec fn u32_le(v: u32) -> Seq<u8> {
    seq![
        (v % 0x100) as u8,
        ((v / 0x100) % 0x100) as u8,
        ((v / 0x1_0000) % 0x100) as u8,
        (v / 0x100_0000) as u8,
    ]
}

/// The four bytes of `v`, most significant byte first.
pub open spec fn u32_be(v: u32) -> Seq<u8> {
    seq![
        (v / 0x100_0000) as u8,
        ((v / 0x1_0000) % 0x100) as u8,
        ((v / 0x100) % 0x100) as u8,
        (v % 0x100) as u8,
    ]
}

/// The number that eight bytes hold, least significant byte first.
pub open spec fn le_u64(b: Seq<u8>) -> u64 {
    (le_u32(b.subrange(0, 4)) as int + 0x1_0000_0000 * (le_u32(b.subrange(4, 8)) as int)) as u64
}

/// The number that eight bytes hold, most significant byte first.
pub open spec fn be_u64(b: Seq<u8>) -> u64 {
    (be_u32(b.subrange(4, 8)) as int + 0x1_0000_0000 * (be_u32(b.subrange(0, 4)) as int)) as u64
}

/// The eight bytes of `v`, least significant byte first.
pub open spec fn u64_le(v: u64) -> Seq<u8> {
    u32_le((v % 0x1_0000_0000) as u32) + u32_le((v / 0x1_0000_0000) as u32)
}

/// The eight bytes of `v`, most significant byte first.
pub open spec fn u64_be(v: u64) -> Seq<u8> {
    u32_be((v / 0x1_0000_0000) as u32) + u32_be((v % 0x1_0000_0000) as u32)
}

/// Reading back the bytes of a 16-bit number gives the number, in either order.
pub proof fn u16_round_trip(v: u16)
    ensures
        le_u16(u16_le(v)) == v,
        be_u16(u16_be(v)) == v,
        u16_le(v).len() == 2,
        u16_be(v).len() == 2,
{
}

/// Reading back the bytes of a 32-bit number gives the number, in either order.
pub proof fn u32_round_trip(v: u32)
    ensures
        le_u32(u32_le(v)) == v,
        be_u32(u32_be(v)) == v,
        u32_le(v).len() == 4,
        u32_be(v).len() == 4,
{
}

/// Reading back the bytes of a 64-bit number gives the number, in either order.
pub proof fn u64_round_trip(v: u64)
    ensures
        le_u64(u64_le(v)) == v,
        be_u64(u64_be(v)) == v,
        u64_le(v).len() == 8,
        u64_be(v).len() == 8,
{
    let lo = (v % 0x1_0000_0000) as u32;
    let hi = (v / 0x1_0000_0000) as u32;
    u32_round_trip(lo);
    u32_round_trip(hi);
    assert(u64_le(v).subrange(0, 4) =~= u32_le(lo));
    assert(u64_le(v).subrange(4, 8) =~= u32_le(hi));
    assert(u64_be(v).subrange(0, 4) =~= u32_be(hi));
    assert(u64_be(v).subrange(4, 8) =~= u32_be(lo));
}

/// Writing out the number that bytes hold gives the bytes, in either order.
pub proof fn u16_bytes_round_trip(b: Seq<u8>)
    requires
        b.len() == 2,
    ensures
        u16_le(le_u16(b)) == b,
        u16_be(be_u16(b)) == b,
{
    assert(u16_le(le_u16(b)) =~= b);
    assert(u16_be(be_u16(b)) =~= b);
}

/// Writing out the number that bytes hold gives the bytes, in either order.
pub proof fn u32_bytes_round_trip(b: Seq<u8>)
    requires
        b.len() == 4,
    ensures
        u32_le(le_u32(b)) == b,
        u32_be(be_u32(b)) == b,
{
    u32_digits(b[0], b[1], b[2], b[3]);
    u32_digits(b[3], b[2], b[1], b[0]);
    assert(u32_le(le_u32(b)) =~= b);
    assert(u32_be(be_u32(b)) =~= b);
}

/// The four base-256 digits of a number are found again by division.
proof fn u32_digits(d0: u8, d1: u8, d2: u8, d3: u8)
    ensures
        ({
            let x = d0 as int + 0x100 * (d1 as int) + 0x1_0000 * (d2 as int) + 0x100_0000 * (
            d3 as int);
            &&& 0 <= x <= u32::MAX
            &&& x % 0x100 == d0
            &&& (x / 0x100) % 0x100 == d1
            &&& (x / 0x1_0000) % 0x100 == d2
            &&& x / 0x100_0000 == d3
        }),
{
    let x = d0 as int + 0x100 * (d1 as int) + 0x1_0000 * (d2 as int) + 0x100_0000 * (d3 as int);
    let y = d1 as int + 0x100 * (d2 as int) + 0x1_0000 * (d3 as int);
    let z = d2 as int + 0x100 * (d3 as int);
    assert(x == d0 + 0x100 * y);
    assert(x / 0x100 == y && x % 0x100 == d0);
    assert(y == d1 + 0x100 * z);
    assert(y / 0x100 == z && y % 0x100 == d1);
    assert(x / 0x1_0000 == z) by {
        assert(x == (d0 + 0x100 * (d1 as int)) + 0x1_0000 * z);
    }
    assert(z / 0x100 == d3 && z % 0x100 == d2);
    assert(x / 0x100_0000 == d3) by {
        assert(x == (d0 + 0x100 * (d1 as int) + 0x1_0000 * (d2 as int)) + 0x100_0000 * (d3 as int));
    }
}

/// Whether the machine that runs the program stores the least significant byte first.
pub open spec fn native_is_little() -> bool {
    vstd::endian::endianness() is Little
}

/// `u16::from_ne_bytes` of std: the number that two bytes hold in the byte order of
/// the machine, which is the little-endian reading where the machine is little-endian
/// and the big-endian reading where it is not.
#[verifier::external_body]
fn u16_from_ne_bytes(bytes: [u8; 2]) -> (v: u16)
    ensures
        v == (if native_is_little() {
            le_u16(bytes@)
        } else {
            be_u16(bytes@)
        }),
{
    u16::from_ne_bytes(bytes)
}

/// Whether the machine that runs the program stores the least significant byte first.
pub fn host_is_little_endian() -> (little: bool)
    ensures
        little == native_is_little(),
{
    let probe: [u8; 2] = [1, 0];
    u16_from_ne_bytes(probe) == 1
}

/// A way to write down file names.
pub trait FileInterchange {
    /// What fills a name up to an even number of bytes
    type Padding: Copy + Default;
}

/// A file name of at most eight characters and an extension of at most three.
pub struct InterchangeL1 {
    basename: IsoStrD<8>,
    extension: IsoStrD<3>,
}

impl FileInterchange for InterchangeL1 {
    type Padding = u8;
}

/// A file name of at most thirty characters.
pub struct InterchangeL2 {
    path: IsoStrFile<30>,
}

impl FileInterchange for InterchangeL2 {
    type Padding = u8;
}

/// A file name in one of the ways to write it down, with its version.
pub struct Filename<F: FileInterchange> {
    file: F,
    version: u8,
}

/// A file name of at most eight characters and an extension of at most three, with
/// its version.
pub type FilenameL1 = Filename<InterchangeL1>;

/// A byte order.
#[derive(Clone, Copy, Debug, PartialEq, Eq, Structural)]
pub enum EndianType {
    /// The order of the machine that runs the program.
    NativeEndian,
    /// Least significant byte first.
    LittleEndian,
    /// Most significant byte first.
    BigEndian,
}

impl EndianType {
    /// Whether this order puts the least significant byte first.
    pub open spec fn is_little(self) -> bool {
        match self {
            EndianType::NativeEndian => native_is_little(),
            EndianType::LittleEndian => true,
            EndianType::BigEndian => false,
        }
    }

    /// The number that two bytes hold in this order.
    pub open spec fn spec_read_u16(self, b: Seq<u8>) -> u16 {
        if self.is_little() {
            le_u16(b)
        } else {
            be_u16(b)
        }
    }

    /// The number that four bytes hold in this order.
    pub open spec fn spec_read_u32(self, b: Seq<u8>) -> u32 {
        if self.is_little() {
            le_u32(b)
        } else {
            be_u32(b)
        }
    }

    /// The number that eight bytes hold in this order.
    pub open spec fn spec_read_u64(self, b: Seq<u8>) -> u64 {
        if self.is_little() {
            le_u64(b)
        } else {
            be_u64(b)
        }
    }

    /// The two bytes of `v` in this order.
    pub open spec fn spec_u16_bytes(self, v: u16) -> Seq<u8> {
        if self.is_little() {
            u16_le(v)
        } else {
            u16_be(v)
        }
    }

    /// The four bytes of `v` in this order.
    pub open spec fn spec_u32_bytes(self, v: u32) -> Seq<u8> {
        if self.is_little() {
            u32_le(v)
        } else {
            u32_be(v)
        }
    }

    /// The eight bytes of `v` in this order.
    pub open spec fn spec_u64_bytes(self, v: u64) -> Seq<u8> {
        if self.is_little() {
            u64_le(v)
        } else {
            u64_be(v)
        }
    }

    /// Whether this order puts the least significant byte first.
    pub fn little(&self) -> (little: bool)
        ensures
            little == self.is_little(),
    {
        match self {
            EndianType::NativeEndian => host_is_little_endian(),
            EndianType::LittleEndian => true,
            EndianType::BigEndian => false,
        }
    }

    /// The number that `bytes` hold in this order.
    pub fn read_u16(&self, bytes: [u8; 2]) -> (v: u16)
        ensures
            v == self.spec_read_u16(bytes@),
    {
        let b0: u16 = bytes[0] as u16;
        let b1: u16 = bytes[1] as u16;
        if self.little() {
            b0 + 0x100 * b1
        } else {
            b1 + 0x100 * b0
        }
    }

    /// The number that `bytes` hold in this order.
    pub fn read_u32(&self, bytes: [u8; 4]) -> (v: u32)
        ensures
            v == self.spec_read_u32(bytes@),
    {
        let b0: u32 = bytes[0] as u32;
        let b1: u32 = bytes[1] as u32;
        let b2: u32 = bytes[2] as u32;
        let b3: u32 = bytes[3] as u32;
        if self.little() {
            b0 + 0x100 * b1 + 0x1_0000 * b2 + 0x100_0000 * b3
        } else {
            b3 + 0x100 * b2 + 0x1_0000 * b1 + 0x100_0000 * b0
        }
    }

    /// The number that `bytes` hold in this order.
    pub fn read_u64(&self, bytes: [u8; 8]) -> (v: u64)
        ensures
            v == self.spec_read_u64(bytes@),
    {
        let first: [u8; 4] = [bytes[0], bytes[1], bytes[2], bytes[3]];
        let second: [u8; 4] = [bytes[4], bytes[5], bytes[6], bytes[7]];
        assert(first@ =~= bytes@.subrange(0, 4));
        assert(second@ =~= bytes@.subrange(4, 8));
        let a: u64 = self.read_u32(first) as u64;
        let b: u64 = self.read_u32(second) as u64;
        if self.little() {
            a + 0x1_0000_0000 * b
        } else {
            b + 0x1_0000_0000 * a
        }
    }

    /// Puts the bytes of `value` in this order into `bytes`.
    pub fn write_u32(&self, value: u32, bytes: &mut [u8; 4])
        ensures
            final(bytes)@ == self.spec_u32_bytes(value),
    {
        *bytes = self.u32_bytes(value);
    }

    /// The bytes of `value` in this order.
    pub fn u16_bytes(&self, value: u16) -> (bytes: [u8; 2])
        ensures
            bytes@ == self.spec_u16_bytes(value),
    {
        let lo: u8 = (value % 0x100) as u8;
        let hi: u8 = (value / 0x100) as u8;
        let bytes: [u8; 2] = if self.little() {
            [lo, hi]
        } else {
            [hi, lo]
        };
        assert(bytes@ =~= self.spec_u16_bytes(value));
        bytes
    }

    /// The bytes of `value` in this order.
    pub fn u32_bytes(&self, value: u32) -> (bytes: [u8; 4])
        ensures
            bytes@ == self.spec_u32_bytes(value),
    {
        let b0: u8 = (value % 0x100) as u8;
        let b1: u8 = ((value / 0x100) % 0x100) as u8;
        let b2: u8 = ((value / 0x1_0000) % 0x100) as u8;
        let b3: u8 = (value / 0x100_0000) as u8;
        let bytes: [u8; 4] = if self.little() {
            [b0, b1, b2, b3]
        } else {
            [b3, b2, b1, b0]
        };
        assert(bytes@ =~= self.spec_u32_bytes(value));
        bytes
    }

    /// The bytes of `value` in this order.
    pub fn u64_bytes(&self, value: u64) -> (bytes: [u8; 8])
        ensures
            bytes@ == self.spec_u64_bytes(value),
    {
        let lo: [u8; 4] = self.u32_bytes((value % 0x1_0000_0000) as u32);
        let hi: [u8; 4] = self.u32_bytes((value / 0x1_0000_0000) as u32);
        let bytes: [u8; 8] = if self.little() {
            [lo[0], lo[1], lo[2], lo[3], hi[0], hi[1], hi[2], hi[3]]
        } else {
            [hi[0], hi[1], hi[2], hi[3], lo[0], lo[1], lo[2], lo[3]]
        };
        assert(bytes@ =~= self.spec_u64_bytes(value));
        bytes
    }

    /// Reading back what was written in one order gives the number.
    pub proof fn round_trip(self, a: u16, b: u32, c: u64)
        ensures
            self.spec_read_u16(self.spec_u16_bytes(a)) == a,
            self.spec_read_u32(self.spec_u32_bytes(b)) == b,
            self.spec_read_u64(self.spec_u64_bytes(c)) == c,
            self.spec_u16_bytes(a).len() == 2,
            self.spec_u32_bytes(b).len() == 4,
            self.spec_u64_bytes(c).len() == 8,
    {
        u16_round_trip(a);
        u32_round_trip(b);
        u64_round_trip(c);
    }
}

/// A byte order, as a type.
pub trait Endianness: Copy {
    /// The byte order that the type stands for.
    spec fn kind() -> EndianType;

    /// The byte order that the type stands for.
    fn get() -> (kind: EndianType)
        ensures
            kind == Self::kind(),
    ;

    /// The number that `bytes` hold in this order.
    fn get_u16(bytes: [u8; 2]) -> (v: u16)
        ensures
            v == Self::kind().spec_read_u16(bytes@),
    ;

    /// Puts the bytes of `value` in this order into `bytes`.
    fn set_u16(value: u16, bytes: &mut [u8; 2])
        ensures
            final(bytes)@ == Self::kind().spec_u16_bytes(value),
    ;

    /// The number that `bytes` hold in this order.
    fn get_u32(bytes: [u8; 4]) -> (v: u32)
        ensures
            v == Self::kind().spec_read_u32(bytes@),
    ;

    /// Puts the bytes of `value` in this order into `bytes`.
    fn set_u32(value: u32, bytes: &mut [u8; 4])
        ensures
            final(bytes)@ == Self::kind().spec_u32_bytes(value),
    ;

    /// The number that `bytes` hold in this order.
    fn get_u64(bytes: [u8; 8]) -> (v: u64)
        ensures
            v == Self::kind().spec_read_u64(bytes@),
    ;

    /// Puts the bytes of `value` in this order into `bytes`.
    fn set_u64(value: u64, bytes: &mut [u8; 8])
        ensures
            final(bytes)@ == Self::kind().spec_u64_bytes(value),
    ;
}

/// The byte order of the machine that runs the program.
#[derive(Debug, Copy, Clone)]
pub struct NativeEndian;

/// Least significant byte first.
#[derive(Debug, Copy, Clone)]
pub struct LittleEndian;

/// Most significant byte first.
#[derive(Debug, Copy, Clone)]
pub struct BigEndian;

impl Endianness for NativeEndian {
    open spec fn kind() -> EndianType {
        EndianType::NativeEndian
    }

    fn get() -> (kind: EndianType) {
        EndianType::NativeEndian
    }

    fn get_u16(bytes: [u8; 2]) -> (v: u16) {
        EndianType::NativeEndian.read_u16(bytes)
    }

    fn set_u16(value: u16, bytes: &mut [u8; 2]) {
        *bytes = EndianType::NativeEndian.u16_bytes(value);
    }

    fn get_u32(bytes: [u8; 4]) -> (v: u32) {
        EndianType::NativeEndian.read_u32(bytes)
    }

    fn set_u32(value: u32, bytes: &mut [u8; 4]) {
        *bytes = EndianType::NativeEndian.u32_bytes(value);
    }

    fn get_u64(bytes: [u8; 8]) -> (v: u64) {
        EndianType::NativeEndian.read_u64(bytes)
    }

    fn set_u64(value: u64, bytes: &mut [u8; 8]) {
        *bytes = EndianType::NativeEndian.u64_bytes(value);
    }
}

impl Endianness for LittleEndian {
    open spec fn kind() -> EndianType {
        EndianType::LittleEndian
    }

    fn get() -> (kind: EndianType) {
        EndianType::LittleEndian
    }

    fn get_u16(bytes: [u8; 2]) -> (v: u16) {
        EndianType::LittleEndian.read_u16(bytes)
    }

    fn set_u16(value: u16, bytes: &mut [u8; 2]) {
        *bytes = EndianType::LittleEndian.u16_bytes(value);
    }

    fn get_u32(bytes: [u8; 4]) -> (v: u32) {
        EndianType::LittleEndian.read_u32(bytes)
    }

    fn set_u32(value: u32, bytes: &mut [u8; 4]) {
        *bytes = EndianType::LittleEndian.u32_bytes(value);
    }

    fn get_u64(bytes: [u8; 8]) -> (v: u64) {
        EndianType::LittleEndian.read_u64(bytes)
    }

    fn set_u64(value: u64, bytes: &mut [u8; 8]) {
        *bytes = EndianType::LittleEndian.u64_bytes(value);
    }
}

impl Endianness for BigEndian {
    open spec fn kind() -> EndianType {
        EndianType::BigEndian
    }

    fn get() -> (kind: EndianType) {
        EndianType::BigEndian
    }

    fn get_u16(bytes: [u8; 2]) -> (v: u16) {
        EndianType::BigEndian.read_u16(bytes)
    }

    fn set_u16(value: u16, bytes: &mut [u8; 2]) {
        *bytes = EndianType::BigEndian.u16_bytes(value);
    }

    fn get_u32(bytes: [u8; 4]) -> (v: u32) {
        EndianType::BigEndian.read_u32(bytes)
    }

    fn set_u32(value: u32, bytes: &mut [u8; 4]) {
        *bytes = EndianType::BigEndian.u32_bytes(value);
    }

    fn get_u64(bytes: [u8; 8]) -> (v: u64) {
        EndianType::BigEndian.read_u64(bytes)
    }

    fn set_u64(value: u64, bytes: &mut [u8; 8]) {
        *bytes = EndianType::BigEndian.u64_bytes(value);
    }
}

/// A number that is kept as its bytes in one byte order.
pub trait Endian: Sized {
    /// The type of the number.
    type Output;

    /// The number that is kept.
    spec fn value(&self) -> Self::Output;

    /// The bytes that keep it.
    spec fn layout(&self) -> Seq<u8>;

    /// The bytes that keep `value`.
    spec fn layout_of(value: Self::Output) -> Seq<u8>;

    /// The number that `bytes` keep.
    spec fn value_of(bytes: Seq<u8>) -> Self::Output;

    /// The number of bytes that keep a number.
    spec fn width() -> nat;

    /// What is read is what the bytes keep, and a number's bytes keep that number.
    proof fn layout_laws(&self, value: Self::Output)
        ensures
            self.layout().len() == Self::width(),
            self.value() == Self::value_of(self.layout()),
            Self::layout_of(value).len() == Self::width(),
            Self::value_of(Self::layout_of(value)) == value,
    ;

    /// The number of bytes that keep a number.
    fn size(&self) -> (n: usize)
        ensures
            n == Self::width(),
    ;

    /// Keeps `value`.
    fn new(value: Self::Output) -> (kept: Self)
        ensures
            kept.value() == value,
            kept.layout() == Self::layout_of(value),
    ;

    /// The number that is kept.
    fn get(&self) -> (value: Self::Output)
        ensures
            value == self.value(),
    ;

    /// Keeps `value` from now on.
    fn set(&mut self, value: Self::Output)
        ensures
            final(self).value() == value,
            final(self).layout() == Self::layout_of(value),
    ;

    /// Appends the bytes that keep the number to `out`.
    fn store(&self, out: &mut Vec<u8>)
        ensures
            final(out)@ == old(out)@ + self.layout(),
    ;

    /// Takes over the bytes of `bytes` from `at` on.
    fn load(bytes: &[u8], at: usize) -> (kept: Self)
        requires
            at + Self::width() <= bytes@.len(),
        ensures
            kept.layout() == bytes@.subrange(at as int, at + Self::width()),
    ;
}

/// A 16-bit number kept in the byte order `E`.
#[derive(Copy)]
pub struct U16<E: Endianness> {
    bytes: [u8; 2],
    _marker: PhantomData<E>,
}

impl<E: Endianness> Clone for U16<E> {
    fn clone(&self) -> (copy: Self)
        ensures
            copy == *self,
    {
        *self
    }
}

impl<E: Endianness> Endian for U16<E> {
    type Output = u16;

    open spec fn value(&self) -> u16 {
        E::kind().spec_read_u16(self.layout())
    }

    closed spec fn layout(&self) -> Seq<u8> {
        self.bytes@
    }

    open spec fn layout_of(value: u16) -> Seq<u8> {
        E::kind().spec_u16_bytes(value)
    }

    open spec fn value_of(bytes: Seq<u8>) -> u16 {
        E::kind().spec_read_u16(bytes)
    }

    open spec fn width() -> nat {
        2
    }

    proof fn layout_laws(&self, value: u16) {
        E::kind().round_trip(value, 0, 0);
    }

    fn size(&self) -> (n: usize) {
        2
    }

    fn new(value: u16) -> (kept: Self) {
        let mut bytes: [u8; 2] = [0; 2];
        E::set_u16(value, &mut bytes);
        proof {
            E::kind().round_trip(value, 0, 0);
        }
        Self { bytes, _marker: PhantomData }
    }

    fn get(&self) -> (value: u16) {
        E::get_u16(self.bytes)
    }

    fn set(&mut self, value: u16) {
        E::set_u16(value, &mut self.bytes);
        proof {
            E::kind().round_trip(value, 0, 0);
        }
    }

    fn store(&self, out: &mut Vec<u8>) {
        out.extend_from_slice(self.bytes.as_slice());
    }

    fn load(bytes: &[u8], at: usize) -> (kept: Self) {
        let kept = Self { bytes: [bytes[at], bytes[at + 1]], _marker: PhantomData };
        assert(kept.bytes@ =~= bytes@.subrange(at as int, at + 2));
        kept
    }
}

/// A 32-bit number kept in the byte order `E`.
#[derive(Copy)]
pub struct U32<E: Endianness> {
    bytes: [u8; 4],
    _marker: PhantomData<E>,
}

impl<E: Endianness> Clone for U32<E> {
    fn clone(&self) -> (copy: Self)
        ensures
            copy == *self,
    {
        *self
    }
}

impl<E: Endianness> Endian for U32<E> {
    type Output = u32;

    open spec fn value(&self) -> u32 {
        E::kind().spec_read_u32(self.layout())
    }

    closed spec fn layout(&self) -> Seq<u8> {
        self.bytes@
    }

    open spec fn layout_of(value: u32) -> Seq<u8> {
        E::kind().spec_u32_bytes(value)
    }

    open spec fn value_of(bytes: Seq<u8>) -> u32 {
        E::kind().spec_read_u32(bytes)
    }

    open spec fn width() -> nat {
        4
    }

    proof fn layout_laws(&self, value: u32) {
        E::kind().round_trip(0, value, 0);
    }

    fn size(&self) -> (n: usize) {
        4
    }

    fn new(value: u32) -> (kept: Self) {
        let mut bytes: [u8; 4] = [0; 4];
        E::set_u32(value, &mut bytes);
        proof {
            E::kind().round_trip(0, value, 0);
        }
        Self { bytes, _marker: PhantomData }
    }

    fn get(&self) -> (value: u32) {
        E::get_u32(self.bytes)
    }

    fn set(&mut self, value: u32) {
        E::set_u32(value, &mut self.bytes);
        proof {
            E::kind().round_trip(0, value, 0);
        }
    }

    fn store(&self, out: &mut Vec<u8>) {
        out.extend_from_slice(self.bytes.as_slice());
    }

    fn load(bytes: &[u8], at: usize) -> (kept: Self) {
        let kept = Self {
            bytes: [bytes[at], bytes[at + 1], bytes[at + 2], bytes[at + 3]],
            _marker: PhantomData,
        };
        assert(kept.bytes@ =~= bytes@.subrange(at as int, at + 4));
        kept
    }
}

/// A 64-bit number kept in the byte order `E`.
#[derive(Copy)]
pub struct U64<E: Endianness> {
    bytes: [u8; 8],
    _marker: PhantomData<E>,
}

impl<E: Endianness> Clone for U64<E> {
    fn clone(&self) -> (copy: Self)
        ensures
            copy == *self,
    {
        *self
    }
}

impl<E: Endianness> Endian for U64<E> {
    type Output = u64;

    open spec fn value(&self) -> u64 {
        E::kind().spec_read_u64(self.layout())
    }

    closed spec fn layout(&self) -> Seq<u8> {
        self.bytes@
    }

    open spec fn layout_of(value: u64) -> Seq<u8> {
        E::kind().spec_u64_bytes(value)
    }

    open spec fn value_of(bytes: Seq<u8>) -> u64 {
        E::kind().spec_read_u64(bytes)
    }

    open spec fn width() -> nat {
        8
    }

    proof fn layout_laws(&self, value: u64) {
        E::kind().round_trip(0, 0, value);
    }

    fn size(&self) -> (n: usize) {
        8
    }

    fn new(value: u64) -> (kept: Self) {
        let mut bytes: [u8; 8] = [0; 8];
        E::set_u64(value, &mut bytes);
        proof {
            E::kind().round_trip(0, 0, value);
        }
        Self { bytes, _marker: PhantomData }
    }

    fn get(&self) -> (value: u64) {
        E::get_u64(self.bytes)
    }

    fn set(&mut self, value: u64) {
        E::set_u64(value, &mut self.bytes);
        proof {
            E::kind().round_trip(0, 0, value);
        }
    }

    fn store(&self, out: &mut Vec<u8>) {
        out.extend_from_slice(self.bytes.as_slice());
    }

    fn load(bytes: &[u8], at: usize) -> (kept: Self) {
        let kept = Self {
            bytes: [
                bytes[at],
                bytes[at + 1],
                bytes[at + 2],
                bytes[at + 3],
                bytes[at + 4],
                bytes[at + 5],
                bytes[at + 6],
                bytes[at + 7],
            ],
            _marker: PhantomData,
        };
        assert(kept.bytes@ =~= bytes@.subrange(at as int, at + 8));
        kept
    }
}

/// A kind of number that has a little-endian and a big-endian form.
pub trait EndianPair: Endian {
    /// The number kept least significant byte first.
    type LsbType: Endian<Output = Self::Output>;

    /// The number kept most significant byte first.
    type MsbType: Endian<Output = Self::Output>;
}

impl<E: Endianness> EndianPair for U16<E> {
    type LsbType = U16<LittleEndian>;

    type MsbType = U16<BigEndian>;
}

impl<E: Endianness> EndianPair for U32<E> {
    type LsbType = U32<LittleEndian>;

    type MsbType = U32<BigEndian>;
}

impl<E: Endianness> EndianPair for U64<E> {
    type LsbType = U64<LittleEndian>;

    type MsbType = U64<BigEndian>;
}

/// A number kept twice: least significant byte first, then most significant byte first.
pub struct LsbMsb<T: EndianPair> {
    lsb: T::LsbType,
    msb: T::MsbType,
}

impl<T: EndianPair> Copy for LsbMsb<T> where T::LsbType: Copy, T::MsbType: Copy {
}

impl<T: EndianPair> Clone for LsbMsb<T> where T::LsbType: Copy, T::MsbType: Copy {
    fn clone(&self) -> (copy: Self)
        ensures
            copy == *self,
    {
        *self
    }
}

impl<T: EndianPair> LsbMsb<T> {
    /// The number that the little-endian copy keeps.
    pub closed spec fn lsb_value(&self) -> T::Output {
        self.lsb.value()
    }

    /// The number that the big-endian copy keeps.
    pub closed spec fn msb_value(&self) -> T::Output {
        self.msb.value()
    }

    /// Whether the two copies keep the same number.
    pub open spec fn consistent(&self) -> bool {
        self.lsb_value() == self.msb_value()
    }

    /// The number that the copy in the machine's byte order keeps.
    pub open spec fn value(&self) -> T::Output {
        if native_is_little() {
            self.lsb_value()
        } else {
            self.msb_value()
        }
    }

    /// The bytes of both copies, the little-endian copy first.
    pub closed spec fn layout(&self) -> Seq<u8> {
        self.lsb.layout() + self.msb.layout()
    }

    /// The bytes that keep `value` twice.
    pub open spec fn layout_of(value: T::Output) -> Seq<u8> {
        T::LsbType::layout_of(value) + T::MsbType::layout_of(value)
    }

    /// The number of bytes of both copies.
    pub open spec fn width() -> nat {
        T::LsbType::width() + T::MsbType::width()
    }

    /// The bytes of the two copies follow each other, and each copy keeps what its
    /// bytes say.
    pub proof fn layout_laws(&self)
        ensures
            self.layout().len() == Self::width(),
            self.lsb_value() == T::LsbType::value_of(
                self.layout().subrange(0, T::LsbType::width() as int),
            ),
            self.msb_value() == T::MsbType::value_of(
                self.layout().subrange(T::LsbType::width() as int, Self::width() as int),
            ),
    {
        self.lsb.layout_laws(self.lsb.value());
        self.msb.layout_laws(self.msb.value());
        assert(self.layout().subrange(0, T::LsbType::width() as int) =~= self.lsb.layout());
        assert(self.layout().subrange(T::LsbType::width() as int, Self::width() as int)
            =~= self.msb.layout());
    }

    /// Keeps `value` in both byte orders.
    pub fn new(value: T::Output) -> (kept: Self) where T::Output: Copy
        ensures
            kept.lsb_value() == value,
            kept.msb_value() == value,
            kept.layout() == Self::layout_of(value),
    {
        Self { lsb: T::LsbType::new(value), msb: T::MsbType::new(value) }
    }

    /// The number that the copy in the machine's byte order keeps.
    pub fn read(&self) -> (value: T::Output)
        ensures
            value == self.value(),
    {
        if host_is_little_endian() {
            self.lsb.get()
        } else {
            self.msb.get()
        }
    }

    /// Keeps `value` in both byte orders from now on.
    pub fn write(&mut self, value: T::Output) where T::Output: Copy
        ensures
            final(self).lsb_value() == value,
            final(self).msb_value() == value,
            final(self).layout() == Self::layout_of(value),
    {
        self.lsb.set(value);
        self.msb.set(value);
    }

    /// The number that the little-endian copy keeps.
    pub fn read_lsb(&self) -> (value: T::Output)
        ensures
            value == self.lsb_value(),
    {
        self.lsb.get()
    }

    /// The number that the big-endian copy keeps.
    pub fn read_msb(&self) -> (value: T::Output)
        ensures
            value == self.msb_value(),
    {
        self.msb.get()
    }

    /// Appends the bytes of both copies to `out`.
    pub fn store(&self, out: &mut Vec<u8>)
        ensures
            final(out)@ == old(out)@ + self.layout(),
    {
        self.lsb.store(out);
        self.msb.store(out);
    }
}

/// A 16-bit number in both byte orders.
pub type U16LsbMsb = LsbMsb<U16<LittleEndian>>;

/// A 32-bit number in both byte orders.
pub type U32LsbMsb = LsbMsb<U32<LittleEndian>>;

/// A 64-bit number in both byte orders.
pub type U64LsbMsb = LsbMsb<U64<LittleEndian>>;

/// The bytes of a 16-bit number in both byte orders are its little-endian bytes
/// followed by its big-endian bytes.
pub proof fn u16_pair_layout(v: u16)
    ensures
        U16LsbMsb::layout_of(v) == u16_le(v) + u16_be(v),
        U16LsbMsb::layout_of(v).len() == 4,
        U16LsbMsb::width() == 4,
{
    assert(U16::<LittleEndian>::layout_of(v) == u16_le(v));
    assert(U16::<BigEndian>::layout_of(v) == u16_be(v));
    assert(U16LsbMsb::layout_of(v) == U16::<LittleEndian>::layout_of(v) + U16::<
        BigEndian,
    >::layout_of(v));
}

/// The bytes of a 32-bit number in both byte orders are its little-endian bytes
/// followed by its big-endian bytes.
pub proof fn u32_pair_layout(v: u32)
    ensures
        U32LsbMsb::layout_of(v) == u32_le(v) + u32_be(v),
        U32LsbMsb::layout_of(v).len() == 8,
        U32LsbMsb::width() == 8,
{
    assert(U32::<LittleEndian>::layout_of(v) == u32_le(v));
    assert(U32::<BigEndian>::layout_of(v) == u32_be(v));
    assert(U32LsbMsb::layout_of(v) == U32::<LittleEndian>::layout_of(v) + U32::<
        BigEndian,
    >::layout_of(v));
}

/// What the two copies of a 32-bit number keep, by the eight bytes of the pair.
pub proof fn u32_pair_values(pair: &U32LsbMsb)
    ensures
        pair.layout().len() == 8,
        pair.lsb_value() == le_u32(pair.layout().subrange(0, 4)),
        pair.msb_value() == be_u32(pair.layout().subrange(4, 8)),
{
    pair.layout_laws();
}

/// What the two copies of a 16-bit number keep, by the four bytes of the pair.
pub proof fn u16_pair_values(pair: &U16LsbMsb)
    ensures
        pair.layout().len() == 4,
        pair.lsb_value() == le_u16(pair.layout().subrange(0, 2)),
        pair.msb_value() == be_u16(pair.layout().subrange(2, 4)),
{
    pair.layout_laws();
}

impl<T: EndianPair> LsbMsb<T> {
    /// Takes over the bytes of both copies from `bytes`, from `at` on.
    pub fn load(bytes: &[u8], at: usize) -> (kept: Self)
        requires
            at + Self::width() <= bytes@.len(),
        ensures
            kept.layout() == bytes@.subrange(at as int, at + Self::width()),
    {
        let total = bytes.len();
        let lsb = T::LsbType::load(bytes, at);
        let second = at + lsb.size();
        let msb = T::MsbType::load(bytes, second);
        let kept = Self { lsb, msb };
        assert(kept.layout() =~= bytes@.subrange(at as int, at + Self::width()));
        kept
    }
}

/// The decimal digits of `n` in ASCII, without leading zeros.
pub open spec fn decimal(n: nat) -> Seq<u8>
    decreases n,
{
    if n < 10 {
        seq![(0x30 + n) as u8]
    } else {
        decimal(n / 10).push((0x30 + n % 10) as u8)
    }
}

/// The decimal text of `n`, with a minus sign where it is negative.
pub open spec fn signed_decimal(n: int) -> Seq<u8> {
    if n < 0 {
        seq![0x2Du8] + decimal((-n) as nat)
    } else {
        decimal(n as nat)
    }
}

/// The decimal digits of `n` in ASCII, without leading zeros.
pub fn decimal_digits(n: u32) -> (digits: Vec<u8>)
    ensures
        digits@ == decimal(n as nat),
    decreases n,
{
    if n < 10 {
        let mut digits: Vec<u8> = Vec::new();
        digits.push(0x30 + n as u8);
        assert(digits@ =~= decimal(n as nat));
        digits
    } else {
        let mut digits = decimal_digits(n / 10);
        digits.push(0x30 + (n % 10) as u8);
        digits
    }
}

/// The decimal text of `n`, with a minus sign where it is negative.
pub fn signed_decimal_digits(n: i32) -> (digits: Vec<u8>)
    ensures
        digits@ == signed_decimal(n as int),
{
    if n < 0 {
        let magnitude: u32 = if n == i32::MIN {
            0x8000_0000
        } else {
            (-n) as u32
        };
        let mut digits: Vec<u8> = Vec::new();
        digits.push(0x2D);
        let mut rest = decimal_digits(magnitude);
        digits.append(&mut rest);
        digits
    } else {
        decimal_digits(n as u32)
    }
}

/// A date and time in decimal digits, as a volume descriptor holds it.
#[derive(Copy, Clone)]
pub struct DecDateTime {
    pub year: IsoStrD<4>,
    pub month: IsoStrD<2>,
    pub day: IsoStrD<2>,
    pub hour: IsoStrD<2>,
    pub minute: IsoStrD<2>,
    pub second: IsoStrD<2>,
    pub hundredths: IsoStrD<2>,
    pub timezone: u8,
}

/// The current instant in UTC, read from the system clock and taken apart by chrono's
/// `Datelike` and `Timelike`: year, month, day, hour, minute, second and nanosecond.
/// The ranges are those that chrono documents; a nanosecond of a thousand million or
/// more marks a leap second.
#[verifier::external_body]
fn utc_now() -> (t: (i32, u32, u32, u32, u32, u32, u32))
    ensures
        1 <= t.1 <= 12,
        1 <= t.2 <= 31,
        t.3 <= 23,
        t.4 <= 59,
        t.5 <= 59,
        t.6 <= 1_999_999_999,
{
    let now: chrono::DateTime<chrono::Utc> = std::time::SystemTime::now().into();
    (
        chrono::Datelike::year(&now),
        chrono::Datelike::month(&now),
        chrono::Datelike::day(&now),
        chrono::Timelike::hour(&now),
        chrono::Timelike::minute(&now),
        chrono::Timelike::second(&now),
        chrono::Timelike::nanosecond(&now),
    )
}

impl DecDateTime {
    /// The 17 bytes of the field: the seven numbers, then the time zone.
    pub open spec fn encoding(&self) -> Seq<u8> {
        self.year.bytes() + self.month.bytes() + self.day.bytes() + self.hour.bytes()
            + self.minute.bytes() + self.second.bytes() + self.hundredths.bytes() + seq![
            self.timezone,
        ]
    }

    /// The field always holds 17 bytes.
    pub proof fn encoding_len(&self)
        ensures
            self.encoding().len() == 17,
    {
        self.year.bytes_len();
        self.month.bytes_len();
        self.day.bytes_len();
        self.hour.bytes_len();
        self.minute.bytes_len();
        self.second.bytes_len();
        self.hundredths.bytes_len();
    }

    /// Appends the 17 bytes of the field to `out`.
    pub fn store(&self, out: &mut Vec<u8>)
        ensures
            final(out)@ == old(out)@ + self.encoding(),
    {
        self.year.store(out);
        self.month.store(out);
        self.day.store(out);
        self.hour.store(out);
        self.minute.store(out);
        self.second.store(out);
        self.hundredths.store(out);
        out.push(self.timezone);
        assert(out@ =~= old(out)@ + self.encoding());
    }

    /// The field that the 17 bytes of `bytes` from `at` on hold.
    pub fn load(bytes: &[u8], at: usize) -> (date: Self)
        requires
            at + 17 <= bytes@.len(),
        ensures
            date.encoding() == bytes@.subrange(at as int, at + 17),
    {
        let total = bytes.len();
        let date = DecDateTime {
            year: IsoStrD::load(bytes, at),
            month: IsoStrD::load(bytes, at + 4),
            day: IsoStrD::load(bytes, at + 6),
            hour: IsoStrD::load(bytes, at + 8),
            minute: IsoStrD::load(bytes, at + 10),
            second: IsoStrD::load(bytes, at + 12),
            hundredths: IsoStrD::load(bytes, at + 14),
            timezone: bytes[at + 16],
        };
        assert(date.encoding() =~= bytes@.subrange(at as int, at + 17));
        date
    }

    /// The bytes of the field for the given numbers: each number in decimal without
    /// leading zeros, filled up with spaces, and a time zone of zero.
    pub open spec fn encoding_of(
        year: int,
        month: nat,
        day: nat,
        hour: nat,
        minute: nat,
        second: nat,
        hundredths: nat,
    ) -> Seq<u8> {
        space_padded(signed_decimal(year), 4) + space_padded(decimal(month), 2) + space_padded(
            decimal(day),
            2,
        ) + space_padded(decimal(hour), 2) + space_padded(decimal(minute), 2) + space_padded(
            decimal(second),
            2,
        ) + space_padded(decimal(hundredths), 2) + seq![0u8]
    }

    /// The error with which `from_parts` fails on the given numbers, if it does: that
    /// of the first number, in the order of the fields, whose decimal text does not
    /// fit its field.
    pub open spec fn rejection(
        year: int,
        month: nat,
        day: nat,
        hour: nat,
        minute: nat,
        second: nat,
        hundredths: nat,
    ) -> Option<IsoError> {
        if IsoStrD::<4>::rejection(signed_decimal(year)) is Some {
            IsoStrD::<4>::rejection(signed_decimal(year))
        } else if IsoStrD::<2>::rejection(decimal(month)) is Some {
            IsoStrD::<2>::rejection(decimal(month))
        } else if IsoStrD::<2>::rejection(decimal(day)) is Some {
            IsoStrD::<2>::rejection(decimal(day))
        } else if IsoStrD::<2>::rejection(decimal(hour)) is Some {
            IsoStrD::<2>::rejection(decimal(hour))
        } else if IsoStrD::<2>::rejection(decimal(minute)) is Some {
            IsoStrD::<2>::rejection(decimal(minute))
        } else if IsoStrD::<2>::rejection(decimal(second)) is Some {
            IsoStrD::<2>::rejection(decimal(second))
        } else {
            IsoStrD::<2>::rejection(decimal(hundredths))
        }
    }

    /// The date and time with the given numbers.
    pub fn from_parts(
        year: i32,
        month: u32,
        day: u32,
        hour: u32,
        minute: u32,
        second: u32,
        hundredths: u32,
    ) -> (r: Result<DecDateTime, IsoError>)
        ensures
            r is Ok <==> Self::rejection(
                year as int,
                month as nat,
                day as nat,
                hour as nat,
                minute as nat,
                second as nat,
                hundredths as nat,
            ) is None,
            r matches Ok(date) ==> date.encoding() == Self::encoding_of(
                year as int,
                month as nat,
                day as nat,
                hour as nat,
                minute as nat,
                second as nat,
                hundredths as nat,
            ),
            r matches Err(e) ==> Self::rejection(
                year as int,
                month as nat,
                day as nat,
                hour as nat,
                minute as nat,
                second as nat,
                hundredths as nat,
            ) == Some(e),
    {
        let y = signed_decimal_digits(year);
        let year = match IsoStrD::<4>::from_bytes(y.as_slice()) {
            Ok(field) => field,
            Err(e) => {
                return Err(e);
            },
        };
        let m = decimal_digits(month);
        let month = match IsoStrD::<2>::from_bytes(m.as_slice()) {
            Ok(field) => field,
            Err(e) => {
                return Err(e);
            },
        };
        let d = decimal_digits(day);
        let day = match IsoStrD::<2>::from_bytes(d.as_slice()) {
            Ok(field) => field,
            Err(e) => {
                return Err(e);
            },
        };
        let h = decimal_digits(hour);
        let hour = match IsoStrD::<2>::from_bytes(h.as_slice()) {
            Ok(field) => field,
            Err(e) => {
                return Err(e);
            },
        };
        let mi = decimal_digits(minute);
        let minute = match IsoStrD::<2>::from_bytes(mi.as_slice()) {
            Ok(field) => field,
            Err(e) => {
                return Err(e);
            },
        };
        let sec = decimal_digits(second);
        let second = match IsoStrD::<2>::from_bytes(sec.as_slice()) {
            Ok(field) => field,
            Err(e) => {
                return Err(e);
            },
        };
        let hs = decimal_digits(hundredths);
        let hundredths = match IsoStrD::<2>::from_bytes(hs.as_slice()) {
            Ok(field) => field,
            Err(e) => {
                return Err(e);
            },
        };
        Ok(DecDateTime { year, month, day, hour, minute, second, hundredths, timezone: 0 })
    }

    /// Whether the field holds a date and time that a clock can show: a year, a month
    /// from 1 to 12, a day from 1 to 31, an hour up to 23, a minute and a second up
    /// to 59, and hundredths of a second up to 199, which tell a leap second from 100
    /// on; each in decimal without leading zeros.
    pub open spec fn is_reading(&self) -> bool {
        exists|
            year: int,
            month: nat,
            day: nat,
            hour: nat,
            minute: nat,
            second: nat,
            hundredths: nat,
        |
            {
                &&& 1 <= month <= 12
                &&& 1 <= day <= 31
                &&& hour <= 23
                &&& minute <= 59
                &&& second <= 59
                &&& hundredths <= 199
                &&& self.encoding() == #[trigger] Self::encoding_of(
                    year,
                    month,
                    day,
                    hour,
                    minute,
                    second,
                    hundredths,
                )
            }
    }

    /// The date and time that the system clock shows, in UTC. It fails, as `from_parts`
    /// does, where the year has not one to four digits or the clock is within a leap
    /// second.
    pub fn now() -> (r: Result<DecDateTime, IsoError>)
        ensures
            r matches Ok(date) ==> date.is_reading(),
            r matches Err(e) ==> e == IsoError::IdentifierTooLong || e == IsoError::InvalidCharacter,
    {
        let t = utc_now();
        Self::from_parts(t.0, t.1, t.2, t.3, t.4, t.5, t.6 / 10_000_000)
    }
}

/// A fixed-length string of a-characters.
pub type IsoStrA<const N: usize> = IsoStr<CharsetA, N>;

/// A fixed-length string of d-characters.
pub type IsoStrD<const N: usize> = IsoStr<CharsetD, N>;

/// A fixed-length string of file identifier characters.
pub type IsoStrFile<const N: usize> = IsoStr<CharsetFile, N>;

/// A string of file identifier characters.
pub type IsoStringFile = IsoString<CharsetFile>;

} // verus!
