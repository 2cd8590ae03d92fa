//! Choices made while resolving a title: argument defaults, title clean-up and the
//! scrolling history of downloaded files shown on screen.
use vstd::prelude::*;
use vstd::string::*;
use vstd::utf8::encode_utf8;
use crate::text::same_text;

verus! {

/// A title without one trailing `.`.
pub fn title(name: &str) -> (r: &str)
    ensures
        r@ == if name@.len() > 0 && name@.last() == '.' {
            name@.drop_last()
        } else {
            name@
        },
{
    let n = name.unicode_len();
    if n > 0 && name.get_char(n - 1) == '.' {
        let r = name.substring_char(0, n - 1);
        assert(r@ =~= name@.drop_last());
        r
    } else {
        name
    }
}

/// Whether an item is skipped under filter `arg`: `*` matches everything, any other
/// filter only `with` itself.
pub fn resolve_skip(arg: String, with: &str) -> (r: bool)
    ensures
        r == !(arg@ == "*"@ || arg@ == with@),
{
    !(same_text(arg.as_str(), "*") || same_text(arg.as_str(), with))
}

/// One step of the on-screen history of downloaded files, which fills the rows from
/// `start` down to `end` rows above the bottom (`max_y`): while there is room one more
/// line is shown, after that the oldest line scrolls off.
pub fn resolve_move(moves: i32, hist: Vec<String>, start: i32, end: i32, max_y: i32) -> (r: (i32, Vec<String>))
    requires
        i32::MIN <= moves + start <= i32::MAX,
        i32::MIN <= max_y - end <= i32::MAX,
        moves < i32::MAX,
        moves + start >= max_y - end ==> hist.len() > 0,
    ensures
        moves + start >= max_y - end ==> r.0 == moves && r.1@ == hist@.drop_first(),
        moves + start < max_y - end ==> r.0 == moves + 1 && r.1@ == hist@,
{
    let mut moves = moves;
    let mut hist = hist;
    if moves + start >= max_y - end {
        let ghost before = hist@;
        hist.remove(0);
        assert(hist@ =~= before.drop_first());
    } else {
        moves = moves + 1;
    }
    (moves, hist)
}

pub open spec fn spaces(n: nat) -> Seq<char> {
    Seq::new(n, |i: int| ' ')
}

/// A history line filled with spaces up to `width` bytes.
pub open spec fn padded(line: Seq<char>, bytes: nat, width: nat) -> Seq<char> {
    if bytes < width {
        line + spaces((width - bytes) as nat)
    } else {
        line
    }
}

/// The rows to draw for the history: line `i` of the first `moves` lines goes to row
/// `start + i`, padded with spaces to the screen width `max_x`.
pub fn move_lines(moves: i32, hist: &Vec<String>, start: i32, max_x: u32) -> (r: Vec<(i32, String)>)
    requires
        start + moves <= i32::MAX,
    ensures
        r@.len() == if moves <= 0 {
            0
        } else if hist.len() < moves {
            hist.len() as int
        } else {
            moves as int
        },
        forall|i: int|
            0 <= i < r@.len() ==> (#[trigger] r@[i]).0 == start + i && r@[i].1@ == padded(
                hist@[i]@,
                encode_utf8(hist@[i]@).len() as usize as nat,
                max_x as nat,
            ),
{
    let mut out: Vec<(i32, String)> = Vec::new();
    let mut i: i32 = 0;
    while i < moves && (i as usize) < hist.len()
        invariant
            0 <= i,
            moves <= 0 ==> i == 0,
            moves > 0 ==> i <= moves,
            i <= hist.len(),
            start + moves <= i32::MAX,
            out@.len() == i,
            forall|k: int|
                0 <= k < i ==> (#[trigger] out@[k]).0 == start + k && out@[k].1@ == padded(
                    hist@[k]@,
                    encode_utf8(hist@[k]@).len() as usize as nat,
                    max_x as nat,
                ),
        decreases hist.len() - i,
    {
        let message = &hist[i as usize];
        let length = message.as_str().len();
        let mut line = message.clone();
        if length < max_x as usize {
            let mut k: usize = length;
            let ghost base = line@;
            while k < max_x as usize
                invariant
                    length <= k <= max_x,
                    base == message@,
                    line@ == base + spaces((k - length) as nat),
                decreases max_x - k,
            {
                let ghost prev = line@;
                line.append(" ");
                proof {
                    reveal_strlit(" ");
                }
                assert(line@ =~= base + spaces((k + 1 - length) as nat));
                k = k + 1;
            }
        }
        assert(length == encode_utf8(message@).len() as usize);
        assert(line@ == padded(message@, length as nat, max_x as nat));
        out.push((start + i, line));
        i = i + 1;
    }
    out
}

} // verus!
