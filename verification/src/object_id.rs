//! Storage object identifiers, modeled as the twelve bytes they are, with
//! verified parsing from and formatting to their 24-digit hex text form.

use vstd::prelude::*;
use vstd::string::StrSliceExecFns;
use vstd::string::StringExecFns;

verus! {

/// Whether `c` is a hex digit, in either case.
pub open spec fn is_hex_digit(c: char) -> bool {
    ('0' <= c && c <= '9') || ('a' <= c && c <= 'f') || ('A' <= c && c <= 'F')
}

/// The value of the hex digit `c`.
pub open spec fn hex_val(c: char) -> int {
    if '0' <= c && c <= '9' {
        c as int - 48
    } else if 'a' <= c && c <= 'f' {
        c as int - 87
    } else {
        c as int - 55
    }
}

/// Whether `s` is a well-formed identifier text: exactly 24 hex digits.
pub open spec fn hex_string_ok(s: Seq<char>) -> bool {
    s.len() == 24 && (forall|i: int| 0 <= i < s.len() ==> is_hex_digit(#[trigger] s[i]))
}

/// The byte encoded by the `k`-th digit pair of `s`.
pub open spec fn hex_pair_val(s: Seq<char>, k: int) -> int {
    16 * hex_val(s[2 * k]) + hex_val(s[2 * k + 1])
}

/// The lowercase hex digit for the value `v`.
pub open spec fn hex_digit_char(v: int) -> char {
    if v == 0 {
        '0'
    } else if v == 1 {
        '1'
    } else if v == 2 {
        '2'
    } else if v == 3 {
        '3'
    } else if v == 4 {
        '4'
    } else if v == 5 {
        '5'
    } else if v == 6 {
        '6'
    } else if v == 7 {
        '7'
    } else if v == 8 {
        '8'
    } else if v == 9 {
        '9'
    } else if v == 10 {
        'a'
    } else if v == 11 {
        'b'
    } else if v == 12 {
        'c'
    } else if v == 13 {
        'd'
    } else if v == 14 {
        'e'
    } else {
        'f'
    }
}

/// The lowercase hex text of `bytes`: two digits per byte.
pub open spec fn hex_of(bytes: Seq<u8>) -> Seq<char> {
    Seq::new(
        bytes.len() * 2,
        |i: int|
            if i % 2 == 0 {
                hex_digit_char(bytes[i / 2] as int / 16)
            } else {
                hex_digit_char(bytes[i / 2] as int % 16)
            },
    )
}

/// A storage object identifier: twelve bytes.
pub struct ObjectId {
    bytes: Vec<u8>,
}

impl View for ObjectId {
    type V = Seq<u8>;

    closed spec fn view(&self) -> Seq<u8> {
        self.bytes@
    }
}

impl ObjectId {
    /// An identifier always holds exactly twelve bytes.
    pub open spec fn wf(&self) -> bool {
        self@.len() == 12
    }

    /// The lowercase 24-digit hex text of this identifier.
    pub fn to_hex(&self) -> (s: String)
        ensures
            s@ == hex_of(self@),
    {
        let mut s = String::new();
        let n = self.bytes.len();
        let mut k: usize = 0;
        while k < n
            invariant
                n == self@.len(),
                k <= n,
                s@.len() == 2 * k,
                forall|i: int| 0 <= i < 2 * k ==> s@[i] == hex_of(self@)[i],
            decreases n - k,
        {
            let b = self.bytes[k];
            s.append(hex_str_of(b / 16));
            s.append(hex_str_of(b % 16));
            k = k + 1;
        }
        proof {
            assert(s@ =~= hex_of(self@));
        }
        s
    }
}

/// Every value below sixteen formats to a hex digit that reads back as
/// that value.
pub proof fn lemma_hex_digit_char_val(v: int)
    requires
        0 <= v < 16,
    ensures
        is_hex_digit(hex_digit_char(v)),
        hex_val(hex_digit_char(v)) == v,
{
}

/// Formatting then parsing is the identity: the hex text of an identifier
/// is well formed, and each digit pair reads back as the byte it encodes.
pub proof fn lemma_hex_round_trip(bytes: Seq<u8>)
    requires
        bytes.len() == 12,
    ensures
        hex_string_ok(hex_of(bytes)),
        forall|k: int| 0 <= k < 12 ==> hex_pair_val(hex_of(bytes), k) == bytes[k] as int,
{
    let s = hex_of(bytes);
    assert forall|i: int| 0 <= i < s.len() implies is_hex_digit(#[trigger] s[i]) by {
        if i % 2 == 0 {
            lemma_hex_digit_char_val(bytes[i / 2] as int / 16);
        } else {
            lemma_hex_digit_char_val(bytes[i / 2] as int % 16);
        }
    }
    assert forall|k: int| 0 <= k < 12 implies hex_pair_val(s, k) == bytes[k] as int by {
        assert((2 * k) / 2 == k);
        assert((2 * k + 1) / 2 == k);
        lemma_hex_digit_char_val(bytes[k] as int / 16);
        lemma_hex_digit_char_val(bytes[k] as int % 16);
        assert(s[2 * k] == hex_digit_char(bytes[k] as int / 16));
        assert(s[2 * k + 1] == hex_digit_char(bytes[k] as int % 16));
    }
}

/// The one-character text of the hex digit for `v`.
fn hex_str_of(v: u8) -> (s: &'static str)
    requires
        v < 16,
    ensures
        s@.len() == 1,
        s@[0] == hex_digit_char(v as int),
{
    proof {
        reveal_strlit("0");
        reveal_strlit("1");
        reveal_strlit("2");
        reveal_strlit("3");
        reveal_strlit("4");
        reveal_strlit("5");
        reveal_strlit("6");
        reveal_strlit("7");
        reveal_strlit("8");
        reveal_strlit("9");
        reveal_strlit("a");
        reveal_strlit("b");
        reveal_strlit("c");
        reveal_strlit("d");
        reveal_strlit("e");
        reveal_strlit("f");
    }
    match v {
        0 => "0",
        1 => "1",
        2 => "2",
        3 => "3",
        4 => "4",
        5 => "5",
        6 => "6",
        7 => "7",
        8 => "8",
        9 => "9",
        10 => "a",
        11 => "b",
        12 => "c",
        13 => "d",
        14 => "e",
        _ => "f",
    }
}

/// The value of one hex digit, if `c` is one.
fn hex_digit_value(c: char) -> (r: Option<u8>)
    ensures
        match r {
            Some(v) => is_hex_digit(c) && v < 16 && v as int == hex_val(c),
            None => !is_hex_digit(c),
        },
{
    let c32 = c as u32;
    if 48 <= c32 && c32 <= 57 {
        Some((c32 - 48) as u8)
    } else if 97 <= c32 && c32 <= 102 {
        Some((c32 - 87) as u8)
    } else if 65 <= c32 && c32 <= 70 {
        Some((c32 - 55) as u8)
    } else {
        None
    }
}

/// Parse an identifier from its text form: succeeds exactly on 24 hex
/// digits, upper or lower case, and yields the twelve encoded bytes.
pub fn to_object_id(id: &str) -> (r: Result<ObjectId, ()>)
    ensures
        match r {
            Ok(oid) => hex_string_ok(id@) && oid.wf() && (forall|k: int|
                0 <= k < 12 ==> (#[trigger] oid@[k]) as int == hex_pair_val(id@, k)),
            Err(_) => !hex_string_ok(id@),
        },
{
    let n = id.unicode_len();
    if n != 24 {
        return Err(());
    }
    let mut bytes: Vec<u8> = Vec::new();
    let mut k: usize = 0;
    while k < 12
        invariant
            id@.len() == 24,
            k <= 12,
            bytes@.len() == k,
            forall|t: int|
                0 <= t < k ==> is_hex_digit(#[trigger] id@[2 * t]) && is_hex_digit(id@[2 * t + 1])
                    && bytes@[t] as int == hex_pair_val(id@, t),
        decreases 12 - k,
    {
        let c_hi = id.get_char(2 * k);
        let c_lo = id.get_char(2 * k + 1);
        let hi = match hex_digit_value(c_hi) {
            Some(v) => v,
            None => {
                proof {
                    assert(!is_hex_digit(id@[2 * (k as int)]));
                }
                return Err(());
            },
        };
        let lo = match hex_digit_value(c_lo) {
            Some(v) => v,
            None => {
                proof {
                    assert(!is_hex_digit(id@[2 * (k as int) + 1]));
                }
                return Err(());
            },
        };
        bytes.push(16 * hi + lo);
        k = k + 1;
    }
    proof {
        assert forall|i: int| 0 <= i < id@.len() implies is_hex_digit(#[trigger] id@[i]) by {
            let t = i / 2;
            if i % 2 == 0 {
                assert(is_hex_digit(id@[2 * t]));
            } else {
                assert(is_hex_digit(id@[2 * t + 1]));
            }
        }
    }
    Ok(ObjectId { bytes: bytes })
}

} // verus!
