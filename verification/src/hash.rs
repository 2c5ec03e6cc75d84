use vstd::prelude::*;
use vstd::string::StringExecFns;
use vstd::string::StrSliceExecFns;

verus! {

/// A content digest: the raw bytes of a 20-byte SHA-1 value. Its canonical
/// textual form is 40 lowercase hex digits. The all-zero digest doubles as
/// the "absent" sentinel where a record has to write a missing digest.
#[derive(Debug)]
pub struct ContentHash {
    pub bytes: Vec<u8>,
}

impl View for ContentHash {
    type V = Seq<u8>;

    open spec fn view(&self) -> Seq<u8> {
        self.bytes@
    }
}

/// The distinguished "absent" digest: twenty zero bytes.
pub open spec fn zero_digest() -> Seq<u8> {
    Seq::new(20, |i: int| 0u8)
}

/// Element-wise equality of two byte vectors.
pub fn bytes_equal(a: &Vec<u8>, b: &Vec<u8>) -> (r: bool)
    ensures
        r == (a@ == b@),
{
    if a.len() != b.len() {
        return false;
    }
    let mut i: usize = 0;
    while i < a.len()
        invariant
            i <= a.len(),
            a.len() == b.len(),
            forall|j: int| 0 <= j < i ==> a@[j] == b@[j],
        decreases a.len() - i,
    {
        if a[i] != b[i] {
            return false;
        }
        i += 1;
    }
    proof {
        assert(a@ =~= b@);
    }
    true
}

/// An element-wise copy of a byte vector.
pub fn clone_bytes(v: &Vec<u8>) -> (r: Vec<u8>)
    ensures
        r@ == v@,
{
    let mut r: Vec<u8> = Vec::new();
    let mut i: usize = 0;
    while i < v.len()
        invariant
            i <= v.len(),
            r@ =~= v@.subrange(0, i as int),
        decreases v.len() - i,
    {
        r.push(v[i]);
        i += 1;
    }
    proof {
        assert(r@ =~= v@);
    }
    r
}

impl ContentHash {
    /// The absent sentinel value.
    pub fn zero() -> (h: ContentHash)
        ensures
            h@ == zero_digest(),
    {
        let mut b: Vec<u8> = Vec::new();
        let mut i: usize = 0;
        while i < 20
            invariant
                i <= 20,
                b@ =~= Seq::new(i as nat, |j: int| 0u8),
            decreases 20 - i,
        {
            b.push(0u8);
            i += 1;
        }
        proof {
            assert(b@ =~= zero_digest());
        }
        ContentHash { bytes: b }
    }

    pub fn clone_hash(&self) -> (h: ContentHash)
        ensures
            h@ == self@,
    {
        ContentHash { bytes: clone_bytes(&self.bytes) }
    }

    pub fn equals(&self, other: &ContentHash) -> (r: bool)
        ensures
            r == (self@ == other@),
    {
        bytes_equal(&self.bytes, &other.bytes)
    }

    pub fn is_zero(&self) -> (r: bool)
        ensures
            r == (self@ == zero_digest()),
    {
        if self.bytes.len() != 20 {
            return false;
        }
        let mut i: usize = 0;
        while i < 20
            invariant
                i <= 20,
                self.bytes.len() == 20,
                forall|j: int| 0 <= j < i ==> self@[j] == 0u8,
            decreases 20 - i,
        {
            if self.bytes[i] != 0u8 {
                proof {
                    assert(self@[i as int] != zero_digest()[i as int]);
                }
                return false;
            }
            i += 1;
        }
        proof {
            assert(self@ =~= zero_digest());
        }
        true
    }
}

/// The lowercase hex digit for a value below sixteen.
pub open spec fn hex_digit_char(v: int) -> char {
    if v == 0 {
        '0'
    } else if v == 1 {
        '1'
    } else if v == 2 {
        '2'
    } else if v == 3 {
        '3'
    } else if v == 4 {
        '4'
    } else if v == 5 {
        '5'
    } else if v == 6 {
        '6'
    } else if v == 7 {
        '7'
    } else if v == 8 {
        '8'
    } else if v == 9 {
        '9'
    } else if v == 10 {
        'a'
    } else if v == 11 {
        'b'
    } else if v == 12 {
        'c'
    } else if v == 13 {
        'd'
    } else if v == 14 {
        'e'
    } else {
        'f'
    }
}

/// The value of one hex digit, upper or lower case; `None` for any other
/// character.
pub open spec fn hex_val_of(c: char) -> Option<u8> {
    match c {
        '0' => Some(0u8),
        '1' => Some(1u8),
        '2' => Some(2u8),
        '3' => Some(3u8),
        '4' => Some(4u8),
        '5' => Some(5u8),
        '6' => Some(6u8),
        '7' => Some(7u8),
        '8' => Some(8u8),
        '9' => Some(9u8),
        'a' => Some(10u8),
        'b' => Some(11u8),
        'c' => Some(12u8),
        'd' => Some(13u8),
        'e' => Some(14u8),
        'f' => Some(15u8),
        'A' => Some(10u8),
        'B' => Some(11u8),
        'C' => Some(12u8),
        'D' => Some(13u8),
        'E' => Some(14u8),
        'F' => Some(15u8),
        _ => None,
    }
}

/// The 40-character lowercase hex rendering of a byte sequence
/// (two digits per byte, high nibble first).
pub open spec fn hex_seq(bytes: Seq<u8>) -> Seq<char> {
    Seq::new(
        bytes.len() * 2,
        |i: int|
            if i % 2 == 0 {
                hex_digit_char(bytes[i / 2] as int / 16)
            } else {
                hex_digit_char(bytes[i / 2] as int % 16)
            },
    )
}

/// A one-character string slice holding the hex digit for `v`.
pub fn hex_char_str(v: u8) -> (r: &'static str)
    requires
        v < 16,
    ensures
        r@ == seq![hex_digit_char(v as int)],
{
    proof {
        reveal_strlit("0");
        reveal_strlit("1");
        reveal_strlit("2");
        reveal_strlit("3");
        reveal_strlit("4");
        reveal_strlit("5");
        reveal_strlit("6");
        reveal_strlit("7");
        reveal_strlit("8");
        reveal_strlit("9");
        reveal_strlit("a");
        reveal_strlit("b");
        reveal_strlit("c");
        reveal_strlit("d");
        reveal_strlit("e");
        reveal_strlit("f");
    }
    let r = if v == 0 {
        "0"
    } else if v == 1 {
        "1"
    } else if v == 2 {
        "2"
    } else if v == 3 {
        "3"
    } else if v == 4 {
        "4"
    } else if v == 5 {
        "5"
    } else if v == 6 {
        "6"
    } else if v == 7 {
        "7"
    } else if v == 8 {
        "8"
    } else if v == 9 {
        "9"
    } else if v == 10 {
        "a"
    } else if v == 11 {
        "b"
    } else if v == 12 {
        "c"
    } else if v == 13 {
        "d"
    } else if v == 14 {
        "e"
    } else {
        "f"
    };
    proof {
        assert(r@ =~= seq![hex_digit_char(v as int)]);
    }
    r
}

/// Renders a digest as lowercase hex, two digits per byte.
pub fn to_hex(h: &ContentHash) -> (s: String)
    ensures
        s@ == hex_seq(h@),
{
    let mut s = String::new();
    let mut i: usize = 0;
    while i < h.bytes.len()
        invariant
            i <= h.bytes.len(),
            s@ =~= hex_seq(h@.subrange(0, i as int)),
        decreases h.bytes.len() - i,
    {
        let b = h.bytes[i];
        let hi = b / 16;
        let lo = b % 16;
        s.append(hex_char_str(hi));
        s.append(hex_char_str(lo));
        i += 1;
        proof {
            assert(s@ =~= hex_seq(h@.subrange(0, i as int))) by {
                let pre = h@.subrange(0, i - 1);
                let cur = h@.subrange(0, i as int);
                assert(forall|j: int| 0 <= j < pre.len() ==> pre[j] == cur[j]);
                assert(cur[i - 1] == h@[i - 1]);
                assert(forall|j: int|
                    0 <= j < 2 * (i - 1) ==> hex_seq(pre)[j] == hex_seq(cur)[j]);
            }
        }
    }
    proof {
        assert(h@.subrange(0, h@.len() as int) =~= h@);
        assert(s@ =~= hex_seq(h@));
    }
    s
}

/// The value of one hex digit, upper or lower case.
pub fn hex_val(c: char) -> (r: Option<u8>)
    ensures
        r == hex_val_of(c),
{
    match c {
        '0' => Some(0u8),
        '1' => Some(1u8),
        '2' => Some(2u8),
        '3' => Some(3u8),
        '4' => Some(4u8),
        '5' => Some(5u8),
        '6' => Some(6u8),
        '7' => Some(7u8),
        '8' => Some(8u8),
        '9' => Some(9u8),
        'a' => Some(10u8),
        'b' => Some(11u8),
        'c' => Some(12u8),
        'd' => Some(13u8),
        'e' => Some(14u8),
        'f' => Some(15u8),
        'A' => Some(10u8),
        'B' => Some(11u8),
        'C' => Some(12u8),
        'D' => Some(13u8),
        'E' => Some(14u8),
        'F' => Some(15u8),
        _ => None,
    }
}

/// Whether every character of `s` is a hex digit.
pub open spec fn all_hex(s: Seq<char>) -> bool {
    forall|i: int| 0 <= i < s.len() ==> hex_val_of(s[i]) is Some
}

/// The bytes denoted by an all-hex character sequence of even length.
pub open spec fn hex_parse(s: Seq<char>) -> Seq<u8> {
    Seq::new(
        s.len() / 2,
        |i: int| (hex_val_of(s[2 * i]).unwrap() * 16 + hex_val_of(s[2 * i + 1]).unwrap()) as u8,
    )
}

/// Whether the textual form `s` denotes a digest: empty (the absent
/// sentinel) or exactly forty hex digits.
pub open spec fn digest_text_ok(s: Seq<char>) -> bool {
    s.len() == 0 || (s.len() == 40 && all_hex(s))
}

/// The digest denoted by a valid textual form.
pub open spec fn digest_text_val(s: Seq<char>) -> Seq<u8> {
    if s.len() == 0 {
        zero_digest()
    } else {
        hex_parse(s)
    }
}

/// Each hex digit reads back as its value, and is neither a field
/// separator nor a line break.
pub proof fn lemma_hex_digit_props(v: int)
    requires
        0 <= v < 16,
    ensures
        hex_val_of(hex_digit_char(v)) == Some(v as u8),
        hex_digit_char(v) != ':',
        hex_digit_char(v) != '\n',
{
}

/// Rendering bytes as hex and parsing them back is the identity, and the
/// rendered text holds hex digits only.
pub proof fn lemma_hex_round_trip(b: Seq<u8>)
    ensures
        all_hex(hex_seq(b)),
        hex_parse(hex_seq(b)) == b,
        forall|i: int|
            0 <= i < hex_seq(b).len() ==> hex_seq(b)[i] != ':' && hex_seq(b)[i] != '\n',
{
    let hs = hex_seq(b);
    assert forall|i: int| 0 <= i < hs.len() implies hex_val_of(hs[i]) is Some && hs[i] != ':'
        && hs[i] != '\n' by {
        if i % 2 == 0 {
            lemma_hex_digit_props(b[i / 2] as int / 16);
        } else {
            lemma_hex_digit_props(b[i / 2] as int % 16);
        }
    }
    assert(hex_parse(hs) =~= b) by {
        assert forall|i: int| 0 <= i < b.len() implies hex_parse(hs)[i] == b[i] by {
            lemma_hex_digit_props(b[i] as int / 16);
            lemma_hex_digit_props(b[i] as int % 16);
            assert(hs[2 * i] == hex_digit_char(b[i] as int / 16));
            assert(hs[2 * i + 1] == hex_digit_char(b[i] as int % 16));
            vstd::arithmetic::div_mod::lemma_fundamental_div_mod(b[i] as int, 16);
        }
    }
}

impl ContentHash {
    /// Parses the textual form of a digest. The empty string denotes the
    /// all-zero sentinel; anything else must be exactly forty hex digits,
    /// upper or lower case.
    pub fn from_str(s: &str) -> (r: Result<ContentHash, String>)
        ensures
            r is Ok <==> digest_text_ok(s@),
            r matches Ok(h) ==> h@ == digest_text_val(s@),
            r matches Err(m) ==> m@ == (if s@.len() != 40 {
                "Invalid SHA1 hash: "@ + s@
            } else {
                "Invalid hex character in SHA1: "@ + s@
            }),
    {
        let n = s.unicode_len();
        if n == 0 {
            return Ok(ContentHash::zero());
        }
        if n != 40 {
            return Err(String::from_str("Invalid SHA1 hash: ").concat(s));
        }
        let mut b: Vec<u8> = Vec::new();
        let mut i: usize = 0;
        while i < 20
            invariant
                i <= 20,
                s@.len() == 40,
                forall|j: int| 0 <= j < 2 * i ==> hex_val_of(s@[j]) is Some,
                b@.len() == i,
                forall|k: int|
                    0 <= k < i ==> b@[k] == (hex_val_of(s@[2 * k]).unwrap() * 16 + hex_val_of(
                        s@[2 * k + 1],
                    ).unwrap()) as u8,
            decreases 20 - i,
        {
            let hi = hex_val(s.get_char(2 * i));
            let lo = hex_val(s.get_char(2 * i + 1));
            match (hi, lo) {
                (Some(h), Some(l)) => {
                    b.push(h * 16 + l);
                },
                _ => {
                    proof {
                        assert(!all_hex(s@));
                    }
                    return Err(String::from_str("Invalid hex character in SHA1: ").concat(s));
                },
            }
            i += 1;
        }
        proof {
            assert(b@ =~= hex_parse(s@));
        }
        Ok(ContentHash { bytes: b })
    }
}

} // verus!
