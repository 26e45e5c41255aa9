//! Eight-byte lump and texture names as stored in WAD files.
use vstd::prelude::*;
use vstd::string::StringSliceAdditionalSpecFns;

verus! {

/// Why a sequence of bytes is not a valid WAD name.
#[derive(Clone, Copy, Debug, PartialEq, Eq, Structural)]
pub enum NameError {
    /// A byte (after upper-casing) outside the WAD name alphabet.
    InvalidCharacter(u8),
    /// More than eight characters.
    TooLong,
    /// A byte outside the ASCII range.
    NonAscii,
}

/// A WAD name: up to eight upper-case characters, padded with zero bytes.
#[derive(Clone, Copy, Debug, Eq, Hash, PartialOrd, Ord)]
pub struct WadName([u8; 8]);

/// ASCII upper-casing of one byte; other bytes are left as they are.
pub open spec fn ascii_upper(b: u8) -> u8 {
    if 97 <= b <= 122 {
        (b - 32) as u8
    } else {
        b
    }
}

/// The characters a WAD name may hold: `A-Z`, `0-9`, `_`, `%`, `-`, `[`, `]` and `\`.
pub open spec fn is_name_char(b: u8) -> bool {
    ||| 65 <= b <= 90
    ||| 48 <= b <= 57
    ||| b == 95
    ||| b == 37
    ||| b == 45
    ||| b == 91
    ||| b == 93
    ||| b == 92
}

/// How many leading bytes of `v` are looked at when building a name.
pub open spec fn scan_limit(v: Seq<u8>) -> int {
    if v.len() < 8 {
        v.len() as int
    } else {
        8
    }
}

/// The first index at or after `i`, below the scan limit, whose upper-cased byte is not
/// a name character; the scan limit if there is none.
pub open spec fn stop_from(v: Seq<u8>, i: int) -> int
    decreases scan_limit(v) - i,
{
    if i >= scan_limit(v) {
        scan_limit(v)
    } else if !is_name_char(ascii_upper(v[i])) {
        i
    } else {
        stop_from(v, i + 1)
    }
}

/// The eight name bytes made of the first `n` bytes of `v`, upper-cased, then zeros.
pub open spec fn padded_upper(v: Seq<u8>, n: int) -> Seq<u8> {
    Seq::new(8, |j: int| if j < n { ascii_upper(v[j]) } else { 0u8 })
}

/// What reading a name from the bytes `v` gives: the name bytes, or why it fails.
/// A zero byte ends the name early; bytes after it are not looked at.
pub open spec fn spec_name_from_bytes(v: Seq<u8>) -> Result<Seq<u8>, NameError> {
    let k = stop_from(v, 0);
    if k < scan_limit(v) {
        if v[k] >= 128 {
            Err(NameError::NonAscii)
        } else if v[k] == 0 {
            Ok(padded_upper(v, k))
        } else {
            Err(NameError::InvalidCharacter(ascii_upper(v[k])))
        }
    } else if v.len() > 8 {
        Err(NameError::TooLong)
    } else {
        Ok(padded_upper(v, k))
    }
}

/// A name result seen through the names' bytes.
pub open spec fn name_result_view(r: Result<WadName, NameError>) -> Result<Seq<u8>, NameError> {
    match r {
        Ok(n) => Ok(n@),
        Err(e) => Err(e),
    }
}

/// The index of the first zero byte at or after `i` among the eight, or 8 if there is none.
pub open spec fn zero_from(s: Seq<u8>, i: int) -> int
    decreases 8 - i,
{
    if i >= 8 {
        8
    } else if s[i] == 0 {
        i
    } else {
        zero_from(s, i + 1)
    }
}

/// What appending a character to the name bytes `s` gives: the upper-cased character in
/// place of the first zero byte, or why it cannot be appended.
pub open spec fn spec_push(s: Seq<u8>, b: u8) -> Result<Seq<u8>, NameError> {
    if !is_name_char(ascii_upper(b)) {
        Err(NameError::InvalidCharacter(ascii_upper(b)))
    } else if zero_from(s, 0) >= 8 {
        Err(NameError::TooLong)
    } else {
        Ok(s.update(zero_from(s, 0), ascii_upper(b)))
    }
}

/// Every name has eight bytes.
pub broadcast proof fn lemma_name_len(n: WadName)
    ensures
        #[trigger] n@.len() == 8,
{
}

impl PartialEq for WadName {
    fn eq(&self, other: &WadName) -> (r: bool) {
        self.eq_bytes(&other.0)
    }
}

impl vstd::std_specs::cmp::PartialEqSpecImpl for WadName {
    open spec fn obeys_eq_spec() -> bool {
        true
    }

    open spec fn eq_spec(&self, other: &WadName) -> bool {
        self@ == other@
    }
}

/// The eight bytes packed into a 64-bit number, first byte lowest.
pub open spec fn pack8(a0: u8, a1: u8, a2: u8, a3: u8, a4: u8, a5: u8, a6: u8, a7: u8) -> u64 {
    (a0 as u64) | ((a1 as u64) << 8u64) | ((a2 as u64) << 16u64) | ((a3 as u64) << 24u64) | ((
    a4 as u64) << 32u64) | ((a5 as u64) << 40u64) | ((a6 as u64) << 48u64) | ((a7 as u64)
        << 56u64)
}

/// A name's bytes packed into a 64-bit number, the key by which names are looked up.
pub open spec fn name_key(s: Seq<u8>) -> u64 {
    pack8(s[0], s[1], s[2], s[3], s[4], s[5], s[6], s[7])
}

proof fn lemma_pack8_injective(
    a0: u8,
    a1: u8,
    a2: u8,
    a3: u8,
    a4: u8,
    a5: u8,
    a6: u8,
    a7: u8,
    b0: u8,
    b1: u8,
    b2: u8,
    b3: u8,
    b4: u8,
    b5: u8,
    b6: u8,
    b7: u8,
)
    ensures
        pack8(a0, a1, a2, a3, a4, a5, a6, a7) == pack8(b0, b1, b2, b3, b4, b5, b6, b7) ==> a0 == b0
            && a1 == b1 && a2 == b2 && a3 == b3 && a4 == b4 && a5 == b5 && a6 == b6 && a7 == b7,
{
    assert(pack8(a0, a1, a2, a3, a4, a5, a6, a7) == pack8(b0, b1, b2, b3, b4, b5, b6, b7) ==> a0
        == b0 && a1 == b1 && a2 == b2 && a3 == b3 && a4 == b4 && a5 == b5 && a6 == b6 && a7 == b7)
        by (bit_vector);
}

/// Different names have different keys.
pub proof fn lemma_name_key_injective(a: Seq<u8>, b: Seq<u8>)
    requires
        a.len() == 8,
        b.len() == 8,
    ensures
        name_key(a) == name_key(b) <==> a == b,
{
    lemma_pack8_injective(a[0], a[1], a[2], a[3], a[4], a[5], a[6], a[7], b[0], b[1], b[2], b[3], b[4], b[5], b[6], b[7]);
    if name_key(a) == name_key(b) {
        assert(a =~= b);
    }
}

impl View for WadName {
    type V = Seq<u8>;

    closed spec fn view(&self) -> Seq<u8> {
        self.0@
    }
}

/// Upper-cases one ASCII letter.
pub fn to_ascii_upper(b: u8) -> (r: u8)
    ensures
        r == ascii_upper(b),
{
    if 97 <= b && b <= 122 {
        b - 32
    } else {
        b
    }
}

/// Whether a byte belongs to the WAD name alphabet.
pub fn name_char(b: u8) -> (r: bool)
    ensures
        r == is_name_char(b),
{
    (65 <= b && b <= 90) || (48 <= b && b <= 57) || b == 95 || b == 37 || b == 45 || b == 91
        || b == 93 || b == 92
}

proof fn lemma_stop_from_bounds(v: Seq<u8>, i: int)
    requires
        0 <= i <= scan_limit(v),
    ensures
        i <= stop_from(v, i) <= scan_limit(v),
        forall|j: int| i <= j < stop_from(v, i) ==> is_name_char(#[trigger] ascii_upper(v[j])),
        stop_from(v, i) < scan_limit(v) ==> !is_name_char(ascii_upper(v[stop_from(v, i)])),
    decreases scan_limit(v) - i,
{
    if i < scan_limit(v) && is_name_char(ascii_upper(v[i])) {
        lemma_stop_from_bounds(v, i + 1);
    }
}

proof fn lemma_stop_is(v: Seq<u8>, k: int)
    requires
        0 <= k <= scan_limit(v),
        forall|j: int| 0 <= j < k ==> is_name_char(#[trigger] ascii_upper(v[j])),
        k < scan_limit(v) ==> !is_name_char(ascii_upper(v[k])),
    ensures
        stop_from(v, 0) == k,
{
    lemma_stop_from_bounds(v, 0);
    let s = stop_from(v, 0);
    if s < k {
        assert(is_name_char(ascii_upper(v[s])));
    }
    if s > k {
        assert(is_name_char(ascii_upper(v[k])));
    }
}

/// Reading a name from the bytes of a name read before gives that name again: names
/// are a fixed point of `from_bytes`.
pub proof fn law_from_bytes_idempotent(v: Seq<u8>)
    requires
        spec_name_from_bytes(v) is Ok,
    ensures
        spec_name_from_bytes(spec_name_from_bytes(v)->Ok_0) == spec_name_from_bytes(v),
{
    let n = spec_name_from_bytes(v)->Ok_0;
    let k = stop_from(v, 0);
    lemma_stop_from_bounds(v, 0);
    assert(n == padded_upper(v, k));
    assert(n.len() == 8);
    assert forall|j: int| 0 <= j < k implies is_name_char(#[trigger] ascii_upper(n[j])) by {
        assert(is_name_char(ascii_upper(v[j])));
    }
    if k < 8 {
        assert(n[k] == 0);
        lemma_stop_is(n, k);
        assert(padded_upper(n, k) =~= n);
    } else {
        lemma_stop_is(n, 8);
        assert(padded_upper(n, 8) =~= n);
    }
}

/// Upper-casing the bytes first changes nothing: reading names ignores letter case.
pub proof fn law_from_bytes_ignores_case(v: Seq<u8>)
    ensures
        spec_name_from_bytes(v.map_values(|b: u8| ascii_upper(b))) == spec_name_from_bytes(v),
{
    let u = v.map_values(|b: u8| ascii_upper(b));
    let k = stop_from(v, 0);
    lemma_stop_from_bounds(v, 0);
    assert forall|j: int| 0 <= j < u.len() implies #[trigger] ascii_upper(u[j]) == ascii_upper(v[j]) by {}
    assert(scan_limit(u) == scan_limit(v));
    lemma_stop_is(u, k);
    assert(padded_upper(u, k) =~= padded_upper(v, k));
}

proof fn lemma_trimmed_len_from(s: Seq<u8>, k: int, n: int)
    requires
        0 <= k <= n <= s.len(),
        forall|j: int| 0 <= j < k ==> s[j] != 0,
        forall|j: int| k <= j < n ==> s[j] == 0,
    ensures
        trimmed_len_from(s, n) == k,
    decreases n,
{
    if n > k {
        lemma_trimmed_len_from(s, k, n - 1);
    } else if n > 0 {
        assert(s[n - 1] != 0);
    }
}

/// A name's text, its bytes with the trailing zero bytes cut off, reads back as the name:
/// for every name read from bytes, reading its trimmed bytes gives the same name.
pub proof fn law_trimmed_text_reads_back(v: Seq<u8>)
    requires
        spec_name_from_bytes(v) is Ok,
    ensures
        ({
            let n = spec_name_from_bytes(v)->Ok_0;
            spec_name_from_bytes(n.take(trimmed_len(n))) == Ok::<Seq<u8>, NameError>(n)
        }),
{
    let n = spec_name_from_bytes(v)->Ok_0;
    let k = stop_from(v, 0);
    lemma_stop_from_bounds(v, 0);
    assert(n == padded_upper(v, k));
    assert forall|j: int| 0 <= j < k implies is_name_char(#[trigger] n[j]) && n[j] != 0 by {
        assert(is_name_char(ascii_upper(v[j])));
    }
    lemma_trimmed_len_from(n, k, 8);
    let t = n.take(k);
    assert forall|j: int| 0 <= j < k implies is_name_char(#[trigger] ascii_upper(t[j])) by {
        assert(t[j] == n[j]);
        assert(is_name_char(n[j]));
    }
    lemma_stop_is(t, k);
    assert(padded_upper(t, k) =~= n);
}

/// The bytes of the WAD name alphabet, listed by value: `A`-`Z`, `0`-`9`, `_`, `%`, `-`,
/// `[`, `]` and `\`.
pub open spec fn listed_name_byte(b: u8) -> bool {
    ||| 0x41 <= b <= 0x5a
    ||| 0x30 <= b <= 0x39
    ||| b == 0x5f
    ||| b == 0x25
    ||| b == 0x2d
    ||| b == 0x5b
    ||| b == 0x5d
    ||| b == 0x5c
}

/// Up to eight bytes followed by zeros, making eight.
pub open spec fn zero_padded(v: Seq<u8>) -> Seq<u8> {
    Seq::new(8, |j: int| if j < v.len() { v[j] } else { 0u8 })
}

/// Every sequence of at most eight bytes of the name alphabet reads as a name: the same
/// bytes, padded with zeros.
pub proof fn law_alphabet_reads_as_name(v: Seq<u8>)
    requires
        v.len() <= 8,
        forall|j: int| 0 <= j < v.len() ==> listed_name_byte(#[trigger] v[j]),
    ensures
        spec_name_from_bytes(v) == Ok::<Seq<u8>, NameError>(zero_padded(v)),
{
    assert forall|j: int| 0 <= j < v.len() implies is_name_char(#[trigger] ascii_upper(v[j])) && ascii_upper(v[j]) == v[j] by {
        assert(listed_name_byte(v[j]));
    }
    lemma_stop_is(v, v.len() as int);
    assert(padded_upper(v, v.len() as int) =~= zero_padded(v));
}

proof fn lemma_zero_from_padded(v: Seq<u8>, i: int)
    requires
        v.len() < 8,
        0 <= i <= v.len(),
        forall|j: int| 0 <= j < v.len() ==> v[j] != 0,
    ensures
        zero_from(zero_padded(v), i) == v.len(),
    decreases 8 - i,
{
    if i < v.len() {
        lemma_zero_from_padded(v, i + 1);
    }
}

/// Appending a byte of the name alphabet to a name of fewer than eight characters puts
/// it right after the last character.
pub proof fn law_push_alphabet(v: Seq<u8>, b: u8)
    requires
        v.len() < 8,
        forall|j: int| 0 <= j < v.len() ==> listed_name_byte(#[trigger] v[j]),
        listed_name_byte(b),
    ensures
        spec_push(zero_padded(v), b) == Ok::<Seq<u8>, NameError>(zero_padded(v.push(b))),
{
    assert forall|j: int| 0 <= j < v.len() implies v[j] != 0 by {
        assert(listed_name_byte(v[j]));
    }
    lemma_zero_from_padded(v, 0);
    assert(ascii_upper(b) == b);
    assert(zero_padded(v).update(v.len() as int, b) =~= zero_padded(v.push(b)));
}

impl WadName {
    /// The name's eight bytes.
    pub fn bytes(&self) -> (r: [u8; 8])
        ensures
            r@ == self@,
    {
        self.0
    }

    /// Appends one character (upper-cased) in place of the first zero byte.
    /// Fails, leaving the name as it was, when the character is not a name character
    /// or when the name already holds eight characters.
    pub fn push(&mut self, new_byte: u8) -> (r: Result<(), NameError>)
        ensures
            r is Ok ==> spec_push(old(self)@, new_byte) == Ok::<Seq<u8>, NameError>(final(self)@),
            r matches Err(e) ==> spec_push(old(self)@, new_byte) == Err::<Seq<u8>, NameError>(e)
                && final(self)@ == old(self)@,
    {
        let up = to_ascii_upper(new_byte);
        if !name_char(up) {
            return Err(NameError::InvalidCharacter(up));
        }
        let mut i: usize = 0;
        proof {
            lemma_name_len(*old(self));
        }
        while i < 8
            invariant
                0 <= i <= 8,
                self@ == old(self)@,
                up == ascii_upper(new_byte),
                is_name_char(up),
                old(self)@.len() == 8,
                zero_from(old(self)@, 0) == zero_from(old(self)@, i as int),
            decreases 8 - i,
        {
            if self.0[i] == 0 {
                self.0[i] = up;
                assert(self@ =~= old(self)@.update(i as int, up));
                return Ok(());
            }
            i = i + 1;
        }
        Err(NameError::TooLong)
    }

    /// Reads a name from bytes: upper-cases letters, stops at the first zero byte, and
    /// rejects non-ASCII bytes, characters outside the alphabet and names over eight
    /// characters.
    pub fn from_bytes(value: &[u8]) -> (r: Result<WadName, NameError>)
        ensures
            name_result_view(r) == spec_name_from_bytes(value@),
    {
        let mut name: [u8; 8] = [0u8; 8];
        let limit: usize = if value.len() < 8 {
            value.len()
        } else {
            8
        };
        let mut i: usize = 0;
        proof {
            lemma_stop_from_bounds(value@, 0);
        }
        while i < limit
            invariant
                limit == scan_limit(value@),
                0 <= i <= limit,
                i <= stop_from(value@, 0),
                forall|j: int| 0 <= j < i ==> is_name_char(#[trigger] ascii_upper(value@[j])),
                forall|j: int|
                    0 <= j < 8 ==> #[trigger] name@[j] == (if j < i {
                        ascii_upper(value@[j])
                    } else {
                        0u8
                    }),
                stop_from(value@, 0) < scan_limit(value@) ==> !is_name_char(
                    ascii_upper(value@[stop_from(value@, 0)]),
                ),
                forall|j: int|
                    0 <= j < stop_from(value@, 0) ==> is_name_char(#[trigger] ascii_upper(value@[j])),
                stop_from(value@, 0) <= scan_limit(value@),
            decreases limit - i,
        {
            let src = value[i];
            if src >= 128 {
                assert(!is_name_char(ascii_upper(src)));
                assert(stop_from(value@, 0) == i);
                return Err(NameError::NonAscii);
            }
            let up = to_ascii_upper(src);
            if up == 0 {
                assert(stop_from(value@, 0) == i);
                let r = WadName(name);
                assert(r@ =~= padded_upper(value@, i as int));
                return Ok(r);
            }
            if !name_char(up) {
                assert(stop_from(value@, 0) == i);
                return Err(NameError::InvalidCharacter(up));
            }
            name[i] = up;
            i = i + 1;
        }
        if value.len() > 8 {
            assert(stop_from(value@, 0) == scan_limit(value@));
            return Err(NameError::TooLong);
        }
        let r = WadName(name);
        assert(r@ =~= padded_upper(value@, i as int));
        Ok(r)
    }

    /// Reads a name from a string, as `from_bytes` does from its UTF-8 bytes.
    pub fn from_str(value: &str) -> (r: Result<WadName, NameError>)
        ensures
            name_result_view(r) == spec_name_from_bytes(value.spec_bytes()),
    {
        WadName::from_bytes(value.as_bytes())
    }

    /// Whether the name's bytes are exactly `rhs`.
    pub fn eq_bytes(&self, rhs: &[u8; 8]) -> (r: bool)
        ensures
            r == (self@ == rhs@),
    {
        let mut i: usize = 0;
        while i < 8
            invariant
                0 <= i <= 8,
                forall|j: int| 0 <= j < i ==> self@[j] == rhs@[j],
            decreases 8 - i,
        {
            if self.0[i] != rhs[i] {
                return false;
            }
            i = i + 1;
        }
        assert(self@ =~= rhs@);
        true
    }

    /// The name's bytes packed into a 64-bit number; different names give different keys.
    pub fn key(&self) -> (r: u64)
        ensures
            r == name_key(self@),
    {
        let b = self.0;
        (b[0] as u64) | ((b[1] as u64) << 8u64) | ((b[2] as u64) << 16u64) | ((b[3] as u64) << 24u64)
            | ((b[4] as u64) << 32u64) | ((b[5] as u64) << 40u64) | ((b[6] as u64) << 48u64) | ((
        b[7] as u64) << 56u64)
    }

    /// The name's characters, with the trailing zero bytes cut off.
    pub fn trimmed_bytes(&self) -> (r: Vec<u8>)
        ensures
            r@ == self@.take(trimmed_len(self@)),
    {
        let mut n: usize = 8;
        while n > 0 && self.0[n - 1] == 0
            invariant
                0 <= n <= 8,
                trimmed_len(self@) == trimmed_len_from(self@, n as int),
            decreases n,
        {
            n = n - 1;
        }
        let mut out: Vec<u8> = Vec::new();
        let mut i: usize = 0;
        while i < n
            invariant
                0 <= i <= n <= 8,
                out@ == self@.take(i as int),
            decreases n - i,
        {
            out.push(self.0[i]);
            i = i + 1;
            assert(out@ =~= self@.take(i as int));
        }
        out
    }
}

/// The length of `s[0..n]` with its trailing zero bytes removed.
pub open spec fn trimmed_len_from(s: Seq<u8>, n: int) -> int
    decreases n,
{
    if n <= 0 {
        0
    } else if s[n - 1] == 0 {
        trimmed_len_from(s, n - 1)
    } else {
        n
    }
}

/// The length of a name once its trailing zero bytes are removed.
pub open spec fn trimmed_len(s: Seq<u8>) -> int {
    trimmed_len_from(s, 8)
}

/// Conversion of the values that name a lump into a `WadName`.
pub trait IntoWadName: Sized {
    /// What the conversion gives, seen through the name's bytes.
    spec fn spec_into_wad_name(&self) -> Result<Seq<u8>, NameError>;

    /// Converts the value into a name, or says why it is not one.
    fn into_wad_name(self) -> (r: Result<WadName, NameError>)
        ensures
            name_result_view(r) == self.spec_into_wad_name(),
    ;
}

impl<'a> IntoWadName for &'a [u8] {
    open spec fn spec_into_wad_name(&self) -> Result<Seq<u8>, NameError> {
        spec_name_from_bytes((*self)@)
    }

    fn into_wad_name(self) -> (r: Result<WadName, NameError>) {
        WadName::from_bytes(self)
    }
}

impl<'a> IntoWadName for &'a [u8; 8] {
    open spec fn spec_into_wad_name(&self) -> Result<Seq<u8>, NameError> {
        spec_name_from_bytes((*self)@)
    }

    fn into_wad_name(self) -> (r: Result<WadName, NameError>) {
        WadName::from_bytes(self.as_slice())
    }
}

impl<'a> IntoWadName for &'a str {
    open spec fn spec_into_wad_name(&self) -> Result<Seq<u8>, NameError> {
        spec_name_from_bytes((*self).spec_bytes())
    }

    fn into_wad_name(self) -> (r: Result<WadName, NameError>) {
        WadName::from_str(self)
    }
}

impl IntoWadName for WadName {
    open spec fn spec_into_wad_name(&self) -> Result<Seq<u8>, NameError> {
        Ok(self@)
    }

    fn into_wad_name(self) -> (r: Result<WadName, NameError>) {
        Ok(self)
    }
}

} // verus!
