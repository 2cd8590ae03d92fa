//! Chapter records and the decimal chapter number they sort by.
use vstd::prelude::*;
use vstd::string::*;

verus! {

/// A chapter as the catalog stores it. Two records are the same chapter only when
/// all three fields agree.
#[derive(Clone, Debug, PartialEq, Eq)]
pub struct ChapterMetadata {
    pub updated_at: String,
    pub number: String,
    pub id: String,
}

/// The mathematical value of a chapter record.
pub struct ChapterRecord {
    pub number: Seq<char>,
    pub updated_at: Seq<char>,
    pub id: Seq<char>,
}

impl View for ChapterMetadata {
    type V = ChapterRecord;

    open spec fn view(&self) -> ChapterRecord {
        ChapterRecord { number: self.number@, updated_at: self.updated_at@, id: self.id@ }
    }
}

pub open spec fn is_digit(c: char) -> bool {
    '0' <= c && c <= '9'
}

pub open spec fn digit_value(c: char) -> nat {
    (c as u32 - '0' as u32) as nat
}

pub open spec fn all_digits(s: Seq<char>) -> bool {
    forall|i: int| 0 <= i < s.len() ==> is_digit(#[trigger] s[i])
}

/// The value of a string of decimal digits, most significant first.
pub open spec fn digits_value(s: Seq<char>) -> nat
    decreases s.len(),
{
    if s.len() == 0 {
        0
    } else {
        digits_value(s.drop_last()) * 10 + digit_value(s.last())
    }
}

/// The digits of a decimal number, after an optional leading `+`.
pub open spec fn unsigned_digits(s: Seq<char>) -> Seq<char> {
    if s.len() > 0 && s[0] == '+' {
        s.drop_first()
    } else {
        s
    }
}

/// A 32-bit unsigned decimal number: an optional `+`, then one or more ASCII digits
/// whose value fits in 32 bits. Anything else is no number.
pub open spec fn parse_u32(s: Seq<char>) -> Option<nat> {
    let d = unsigned_digits(s);
    if d.len() > 0 && all_digits(d) && digits_value(d) <= u32::MAX {
        Some(digits_value(d))
    } else {
        None
    }
}

/// The position a chapter sorts at: its number, or 0 when the number is not an
/// unsigned integer.
pub open spec fn number_key(c: ChapterRecord) -> nat {
    match parse_u32(c.number) {
        Some(n) => n,
        None => 0,
    }
}

proof fn lemma_digits_value_grows(s: Seq<char>, k: int)
    requires
        all_digits(s),
        0 <= k <= s.len(),
    ensures
        digits_value(s.take(k)) <= digits_value(s),
    decreases s.len(),
{
    if k < s.len() {
        assert(s.drop_last().take(k) =~= s.take(k));
        lemma_digits_value_grows(s.drop_last(), k);
    } else {
        assert(s.take(k) =~= s);
    }
}

/// Reads a chapter number as `u32::from_str` does.
pub fn parse_number(s: &str) -> (r: Option<u32>)
    ensures
        match r {
            Some(n) => parse_u32(s@) == Some(n as nat),
            None => parse_u32(s@) is None,
        },
{
    let len = s.unicode_len();
    let mut start: usize = 0;
    if len > 0 && s.get_char(0) == '+' {
        start = 1;
    }
    let ghost d = unsigned_digits(s@);
    assert(d =~= s@.skip(start as int));
    if start >= len {
        return None;
    }
    let mut value: u64 = 0;
    let mut i: usize = start;
    while i < len
        invariant
            start <= i <= len,
            len == s@.len(),
            d =~= s@.skip(start as int),
            d == unsigned_digits(s@),
            all_digits(d.take(i - start)),
            value as nat == digits_value(d.take(i - start)),
            value <= u32::MAX,
        decreases len - i,
    {
        let c = s.get_char(i);
        if c < '0' || c > '9' {
            assert(!is_digit(d[i - start]));
            assert(!all_digits(d));
            return None;
        }
        assert(d.take(i + 1 - start).drop_last() =~= d.take(i - start));
        value = value * 10 + (c as u32 - '0' as u32) as u64;
        assert(d.take(i + 1 - start).last() == c);
        assert(value as nat == digits_value(d.take(i + 1 - start)));
        if value > u32::MAX as u64 {
            proof {
                if all_digits(d) {
                    lemma_digits_value_grows(d, i + 1 - start);
                }
            }
            return None;
        }
        i = i + 1;
    }
    assert(d.take(i - start) =~= d);
    Some(value as u32)
}

impl ChapterMetadata {
    pub fn new(number: &str, updated_at: &str, id: &str) -> (r: ChapterMetadata)
        ensures
            r.number@ == number@,
            r.updated_at@ == updated_at@,
            r.id@ == id@,
    {
        ChapterMetadata {
            updated_at: updated_at.to_owned(),
            number: number.to_owned(),
            id: id.to_owned(),
        }
    }

    /// A field-for-field copy.
    pub fn duplicate(&self) -> (r: ChapterMetadata)
        ensures
            r@ == self@,
    {
        ChapterMetadata {
            updated_at: self.updated_at.clone(),
            number: self.number.clone(),
            id: self.id.clone(),
        }
    }

    /// Whether the two records agree on number, update time and id.
    pub fn same_as(&self, other: &ChapterMetadata) -> (r: bool)
        ensures
            r == (self@ == other@),
    {
        self.number == other.number && self.updated_at == other.updated_at && self.id
            == other.id
    }

    /// The record as text: `"number": N, "updatedAt": U, "id": I`.
    pub fn to_display_string(&self) -> (r: String)
        ensures
            r@ == "\"number\": "@ + self.number@ + ", \"updatedAt\": "@ + self.updated_at@
                + ", \"id\": "@ + self.id@,
    {
        let mut s = String::from_str("\"number\": ");
        s.append(self.number.as_str());
        s.append(", \"updatedAt\": ");
        s.append(self.updated_at.as_str());
        s.append(", \"id\": ");
        s.append(self.id.as_str());
        s
    }

    /// The number this chapter sorts by.
    pub fn sort_number(&self) -> (r: u32)
        ensures
            r as nat == number_key(self@),
    {
        match parse_number(self.number.as_str()) {
            Some(n) => n,
            None => 0,
        }
    }
}

} // verus!
