//! Choosing a display and folder name for a title from the names the remote service
//! lists for it.
use vstd::prelude::*;
use vstd::string::*;
use crate::json::{json_quoted, quote_json};
use crate::text::{same_text, text_pairs};

verus! {

/// A title's names as the remote service lists them. Entries whose value is not text
/// are left out.
pub struct TitleData {
    /// The `title` object: language code and name, in the object's key order.
    pub title: Vec<(String, String)>,
    /// The `altTitles` array when there is one: for each element, its language codes
    /// and names (none for an element that is not an object).
    pub alt_titles: Option<Vec<Vec<(String, String)>>>,
}

pub open spec fn opt_text(o: Option<String>) -> Option<Seq<char>> {
    match o {
        Some(s) => Some(s@),
        None => None,
    }
}

/// The name listed first under `key`.
pub open spec fn find_name(s: Seq<(Seq<char>, Seq<char>)>, key: Seq<char>) -> Option<Seq<char>>
    decreases s.len(),
{
    if s.len() == 0 {
        None
    } else if s[0].0 == key {
        Some(s[0].1)
    } else {
        find_name(s.drop_first(), key)
    }
}

/// The name under `key` once all elements are merged into one object, a later element
/// overriding an earlier one.
pub open spec fn merged_name(alts: Seq<Seq<(Seq<char>, Seq<char>)>>, key: Seq<char>) -> Option<Seq<char>>
    decreases alts.len(),
{
    if alts.len() == 0 {
        None
    } else {
        match find_name(alts.last(), key) {
            Some(v) => Some(v),
            None => merged_name(alts.drop_last(), key),
        }
    }
}

pub open spec fn alt_model(alts: Seq<Vec<(String, String)>>) -> Seq<Seq<(Seq<char>, Seq<char>)>> {
    alts.map_values(|a: Vec<(String, String)>| text_pairs(a@))
}

/// The name picked before clean-up, `*` standing for none found yet: the name in the
/// requested language; else the English name of the first alternative-title element;
/// else the romanized Japanese or the English title; else, from all alternative
/// titles together, the English or romanized Japanese one as JSON text; else, when
/// there are alternative titles, `Unrecognized title`.
pub open spec fn picked_name(
    title: Seq<(Seq<char>, Seq<char>)>,
    alts: Option<Seq<Seq<(Seq<char>, Seq<char>)>>>,
    lang: Seq<char>,
) -> Seq<char> {
    match find_name(title, lang) {
        Some(v) => v,
        None => {
            let r1 = match alts {
                Some(a) => if a.len() > 0 && find_name(a[0], "en"@) is Some {
                    find_name(a[0], "en"@)->Some_0
                } else {
                    "*"@
                },
                None => "*"@,
            };
            let r2 = if r1 == "*"@ {
                match find_name(title, "ja-ro"@) {
                    Some(v) => v,
                    None => match find_name(title, "en"@) {
                        Some(v) => v,
                        None => "*"@,
                    },
                }
            } else {
                r1
            };
            let r3 = match alts {
                Some(a) => if r2 == "*"@ {
                    match merged_name(a, "en"@) {
                        Some(v) => json_quoted(v),
                        None => match merged_name(a, "ja-ro"@) {
                            Some(v) => json_quoted(v),
                            None => "*"@,
                        },
                    }
                } else {
                    r2
                },
                None => r2,
            };
            if r3 == "*"@ && alts is Some {
                "Unrecognized title"@
            } else {
                r3
            }
        },
    }
}

/// `s` without double quotes and question marks.
pub open spec fn strip_marks(s: Seq<char>) -> Seq<char>
    decreases s.len(),
{
    if s.len() == 0 {
        s
    } else if s.last() == '"' || s.last() == '?' {
        strip_marks(s.drop_last())
    } else {
        strip_marks(s.drop_last()).push(s.last())
    }
}

/// Whether `c` has the Unicode White_Space property, which `char::is_whitespace` tests.
pub open spec fn is_white_space(c: char) -> bool {
    let v = c as u32;
    (0x9 <= v && v <= 0xD) || v == 0x20 || v == 0x85 || v == 0xA0 || v == 0x1680 || (0x2000 <= v
        && v <= 0x200A) || v == 0x2028 || v == 0x2029 || v == 0x202F || v == 0x205F || v == 0x3000
}

/// `s` without its leading white space.
pub open spec fn trim_start(s: Seq<char>) -> Seq<char>
    decreases s.len(),
{
    if s.len() > 0 && is_white_space(s[0]) {
        trim_start(s.drop_first())
    } else {
        s
    }
}

/// `s` without its trailing white space.
pub open spec fn trim_end(s: Seq<char>) -> Seq<char>
    decreases s.len(),
{
    if s.len() > 0 && is_white_space(s.last()) {
        trim_end(s.drop_last())
    } else {
        s
    }
}

/// What `str::trim` leaves of a text: the text without white space at either end.
pub open spec fn trimmed(s: Seq<char>) -> Seq<char> {
    trim_end(trim_start(s))
}

/// The number of bytes `c` takes in UTF-8.
pub open spec fn utf8_width(c: char) -> nat {
    if (c as u32) < 0x80 {
        1
    } else if (c as u32) < 0x800 {
        2
    } else if (c as u32) < 0x10000 {
        3
    } else {
        4
    }
}

/// The number of bytes `s` takes in UTF-8.
pub open spec fn byte_len(s: Seq<char>) -> nat
    decreases s.len(),
{
    if s.len() == 0 {
        0
    } else {
        byte_len(s.drop_last()) + utf8_width(s.last())
    }
}

/// The longest beginning of `s` that fits in `n` bytes.
pub open spec fn keep_bytes(s: Seq<char>, n: nat) -> Seq<char>
    decreases s.len(),
{
    if s.len() == 0 || byte_len(s) <= n {
        s
    } else {
        keep_bytes(s.drop_last(), n)
    }
}

/// The longest name kept whole, in bytes.
pub const NAME_BYTES: usize = 70;

/// A name longer than 70 bytes is cut to its first 70 bytes (fewer where a character
/// would be split) and marked with `__`.
pub open spec fn shortened(s: Seq<char>) -> Seq<char> {
    if byte_len(s) > NAME_BYTES {
        keep_bytes(s, NAME_BYTES as nat) + "__"@
    } else {
        s
    }
}

/// The name a title is stored under.
pub open spec fn manga_name(t: TitleData, lang: Seq<char>) -> Seq<char> {
    let alts = match t.alt_titles {
        Some(a) => Some(alt_model(a@)),
        None => None,
    };
    shortened(trimmed(strip_marks(picked_name(text_pairs(t.title@), alts, lang))))
}

/// Relies on str::trim: removes the leading and trailing characters with the Unicode
/// White_Space property.
#[verifier::external_body]
fn trim_text(s: &str) -> (r: String)
    ensures
        r@ == trimmed(s@),
{
    s.trim().to_string()
}

/// The name listed first under `key`.
pub fn lookup_name(entries: &Vec<(String, String)>, key: &str) -> (r: Option<String>)
    ensures
        opt_text(r) == find_name(text_pairs(entries@), key@),
{
    let ghost s = text_pairs(entries@);
    let mut i: usize = 0;
    assert(s.skip(0) =~= s);
    while i < entries.len()
        invariant
            i <= entries.len(),
            s == text_pairs(entries@),
            find_name(s, key@) == find_name(s.skip(i as int), key@),
        decreases entries.len() - i,
    {
        assert(s.skip(i as int)[0] == s[i as int]);
        if same_text(entries[i].0.as_str(), key) {
            return Some(entries[i].1.clone());
        }
        assert(s.skip(i as int).drop_first() =~= s.skip(i + 1));
        i = i + 1;
    }
    assert(s.skip(i as int) =~= Seq::<(Seq<char>, Seq<char>)>::empty());
    None
}

/// The name under `key` once all elements are merged, a later element overriding an
/// earlier one.
pub fn lookup_merged(alts: &Vec<Vec<(String, String)>>, key: &str) -> (r: Option<String>)
    ensures
        opt_text(r) == merged_name(alt_model(alts@), key@),
{
    let ghost a = alt_model(alts@);
    let mut found: Option<String> = None;
    let mut i: usize = 0;
    while i < alts.len()
        invariant
            i <= alts.len(),
            a == alt_model(alts@),
            opt_text(found) == merged_name(a.take(i as int), key@),
        decreases alts.len() - i,
    {
        assert(a.take(i + 1).drop_last() =~= a.take(i as int));
        assert(a.take(i + 1).last() == text_pairs(alts@[i as int]@));
        match lookup_name(&alts[i], key) {
            Some(v) => {
                found = Some(v);
            },
            None => {},
        }
        i = i + 1;
    }
    assert(a.take(alts.len() as int) =~= a);
    found
}

/// `s` without double quotes and question marks.
pub fn remove_marks(s: &str) -> (r: String)
    ensures
        r@ == strip_marks(s@),
{
    let n = s.unicode_len();
    let mut out = String::new();
    let mut i: usize = 0;
    while i < n
        invariant
            i <= n,
            n == s@.len(),
            out@ == strip_marks(s@.take(i as int)),
        decreases n - i,
    {
        let c = s.get_char(i);
        assert(s@.take(i + 1).drop_last() =~= s@.take(i as int));
        assert(s@.take(i + 1).last() == c);
        if c != '"' && c != '?' {
            let one = s.substring_char(i, i + 1);
            assert(one@ =~= seq![c]);
            out.append(one);
        }
        i = i + 1;
    }
    assert(s@.take(n as int) =~= s@);
    out
}

fn char_width(c: char) -> (w: usize)
    ensures
        w as nat == utf8_width(c),
{
    let v = c as u32;
    if v < 0x80 {
        1
    } else if v < 0x800 {
        2
    } else if v < 0x10000 {
        3
    } else {
        4
    }
}

proof fn lemma_byte_len_prefix(s: Seq<char>, k: int)
    requires
        0 <= k <= s.len(),
    ensures
        byte_len(s.take(k)) <= byte_len(s),
    decreases s.len(),
{
    if k < s.len() {
        assert(s.drop_last().take(k) =~= s.take(k));
        lemma_byte_len_prefix(s.drop_last(), k);
    } else {
        assert(s.take(k) =~= s);
    }
}

proof fn lemma_keep_bytes(s: Seq<char>, n: nat, k: int)
    requires
        0 <= k < s.len(),
        byte_len(s.take(k)) <= n,
        byte_len(s.take(k + 1)) > n,
    ensures
        keep_bytes(s, n) == s.take(k),
    decreases s.len(),
{
    lemma_byte_len_prefix(s, k + 1);
    let d = s.drop_last();
    assert(byte_len(s) > n);
    assert(keep_bytes(s, n) == keep_bytes(d, n));
    if d.len() == k {
        assert(d =~= s.take(k));
        assert(keep_bytes(d, n) == d);
    } else {
        assert(d.take(k) =~= s.take(k));
        assert(d.take(k + 1) =~= s.take(k + 1));
        lemma_keep_bytes(d, n, k);
    }
}

/// Cuts a name longer than 70 bytes to the longest beginning that fits in 70 bytes and
/// marks it with `__`.
pub fn shorten_name(s: &str) -> (r: String)
    ensures
        r@ == shortened(s@),
{
    let n = s.unicode_len();
    let mut used: usize = 0;
    let mut k: usize = 0;
    while k < n && used + char_width(s.get_char(k)) <= NAME_BYTES
        invariant
            k <= n,
            n == s@.len(),
            used as nat == byte_len(s@.take(k as int)),
            used <= NAME_BYTES,
        decreases n - k,
    {
        assert(s@.take(k + 1).drop_last() =~= s@.take(k as int));
        used = used + char_width(s.get_char(k));
        k = k + 1;
    }
    if k == n {
        assert(s@.take(n as int) =~= s@);
        return s.to_owned();
    }
    proof {
        assert(s@.take(k + 1).drop_last() =~= s@.take(k as int));
        lemma_byte_len_prefix(s@, k + 1);
        lemma_keep_bytes(s@, NAME_BYTES as nat, k as int);
    }
    let mut r = s.substring_char(0, k).to_owned();
    r.append("__");
    r
}

/// The name a title is stored under, `lang` being the language asked for.
pub fn get_manga_name(title_data: &TitleData, lang: &str) -> (r: String)
    ensures
        r@ == manga_name(*title_data, lang@),
{
    let ghost title = text_pairs(title_data.title@);
    let picked = match lookup_name(&title_data.title, lang) {
        Some(v) => v,
        None => {
            let r1 = match &title_data.alt_titles {
                Some(a) => {
                    if a.len() > 0 {
                        assert(alt_model(a@)[0] == text_pairs(a@[0]@));
                        match lookup_name(&a[0], "en") {
                            Some(v) => v,
                            None => String::from_str("*"),
                        }
                    } else {
                        String::from_str("*")
                    }
                },
                None => String::from_str("*"),
            };
            let r2 = if same_text(r1.as_str(), "*") {
                match lookup_name(&title_data.title, "ja-ro") {
                    Some(v) => v,
                    None => match lookup_name(&title_data.title, "en") {
                        Some(v) => v,
                        None => String::from_str("*"),
                    },
                }
            } else {
                r1
            };
            let r3 = match &title_data.alt_titles {
                Some(a) => {
                    if same_text(r2.as_str(), "*") {
                        match lookup_merged(a, "en") {
                            Some(v) => quote_json(v.as_str()),
                            None => match lookup_merged(a, "ja-ro") {
                                Some(v) => quote_json(v.as_str()),
                                None => String::from_str("*"),
                            },
                        }
                    } else {
                        r2
                    }
                },
                None => r2,
            };
            if same_text(r3.as_str(), "*") && title_data.alt_titles.is_some() {
                String::from_str("Unrecognized title")
            } else {
                r3
            }
        },
    };
    let stripped = remove_marks(picked.as_str());
    let trimmed_name = trim_text(stripped.as_str());
    shorten_name(trimmed_name.as_str())
}

} // verus!
