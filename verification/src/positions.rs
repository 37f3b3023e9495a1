//! Converting between byte offsets into a text and the positions an editor
//! uses: a line number and a byte offset within the line. Lines are those
//! that `str::lines` yields, and the cursor moves past each line ending by
//! `LINE_ENDING_LENGTH` bytes.
use vstd::prelude::*;
use crate::text::{bytes_len, chars_of, char_utf8_len, utf8_len};

verus! {

/// A place in a text: a line number and a byte offset within the line.
#[derive(Debug, Clone, Copy, PartialEq, Eq, Structural)]
pub struct Position {
    pub line: u32,
    pub character: u32,
}

/// The number of bytes that the end of a line counts for: one, as on the
/// systems where `\n` alone ends a line.
pub const LINE_ENDING_LENGTH: usize = 1;

/// A line as `str::lines` gives it back when a `\n` ended it: without a
/// `\r` that came just before the `\n`.
pub open spec fn strip_cr(l: Seq<char>) -> Seq<char> {
    if l.len() > 0 && l.last() == '\r' {
        l.drop_last()
    } else {
        l
    }
}

/// Reading `s` from the left: the lines that a `\n` has ended so far, and
/// the text of the line still open.
pub open spec fn scan_lines(s: Seq<char>) -> (Seq<Seq<char>>, Seq<char>)
    decreases s.len(),
{
    if s.len() == 0 {
        (Seq::empty(), Seq::empty())
    } else {
        let (done, open) = scan_lines(s.drop_last());
        if s.last() == '\n' {
            (done.push(strip_cr(open)), Seq::empty())
        } else {
            (done, open.push(s.last()))
        }
    }
}

/// The lines of `s`, as `str::lines` yields them: `s` split at each `\n`,
/// a `\r` just before a `\n` dropped, and no empty line after a final `\n`.
pub open spec fn lines_of(s: Seq<char>) -> Seq<Seq<char>> {
    let (done, open) = scan_lines(s);
    if open.len() > 0 {
        done.push(open)
    } else {
        done
    }
}

/// The byte lengths of the lines of `s`.
pub open spec fn line_lengths(s: Seq<char>) -> Seq<nat> {
    lines_of(s).map_values(|l: Seq<char>| bytes_len(l))
}

/// Where the cursor stands at the start of line `i`: each line before it
/// moved it by its length and the length of a line ending.
pub open spec fn line_start(lens: Seq<nat>, i: int) -> int
    decreases i,
{
    if i <= 0 {
        0
    } else {
        line_start(lens, i - 1) + lens[i - 1] + LINE_ENDING_LENGTH
    }
}

/// The line and the offset within it of byte offset `pos`, looking from
/// line `i` on: the first line whose end the offset does not pass, or,
/// past the last line, the number of lines and offset 0.
pub open spec fn locate(lens: Seq<nat>, pos: int, i: int) -> (int, int)
    decreases lens.len() - i,
{
    if i < 0 || i >= lens.len() {
        (lens.len() as int, 0)
    } else if pos <= line_start(lens, i) + lens[i] {
        (i, if pos >= line_start(lens, i) { pos - line_start(lens, i) } else { 0 })
    } else {
        locate(lens, pos, i + 1)
    }
}

/// The first line, from line `i` on, whose number cut to 32 bits is `line`.
pub open spec fn find_line(count: int, line: u32, i: int) -> Option<int>
    decreases count - i,
{
    if i < 0 || i >= count {
        None
    } else if i as u32 == line {
        Some(i)
    } else {
        find_line(count, line, i + 1)
    }
}

proof fn lemma_line_start_push(lens: Seq<nat>, x: nat, i: int)
    requires
        0 <= i <= lens.len(),
    ensures
        line_start(lens.push(x), i) == line_start(lens, i),
    decreases i,
{
    if i > 0 {
        lemma_line_start_push(lens, x, i - 1);
    }
}

proof fn lemma_line_start_mono(lens: Seq<nat>, i: int, j: int)
    requires
        0 <= i <= j <= lens.len(),
    ensures
        line_start(lens, i) + (j - i) <= line_start(lens, j),
    decreases j - i,
{
    if i < j {
        lemma_line_start_mono(lens, i, j - 1);
    }
}

proof fn lemma_strip_cr_len(l: Seq<char>)
    ensures
        bytes_len(strip_cr(l)) <= bytes_len(l),
        l.len() > 0 && l.last() == '\r' ==> bytes_len(strip_cr(l)) + 1 == bytes_len(l),
{
    if l.len() > 0 && l.last() == '\r' {
        assert(utf8_len('\r') == 1) by {
            vstd::utf8::char_is_scalar('\r');
            reveal_with_fuel(vstd::utf8::encode_scalar, 1);
        }
    }
}

/// The lines that a scan has ended, and the open one, take no more room
/// than the text they came from.
proof fn lemma_scan_room(s: Seq<char>)
    ensures
        ({
            let (done, open) = scan_lines(s);
            let lens = done.map_values(|l: Seq<char>| bytes_len(l));
            line_start(lens, lens.len() as int) + bytes_len(open) <= bytes_len(s)
        }),
    decreases s.len(),
{
    if s.len() > 0 {
        let t = s.drop_last();
        lemma_scan_room(t);
        let (d, o) = scan_lines(t);
        let lens = d.map_values(|l: Seq<char>| bytes_len(l));
        if s.last() == '\n' {
            lemma_strip_cr_len(o);
            let lens2 = d.push(strip_cr(o)).map_values(|l: Seq<char>| bytes_len(l));
            assert(lens2 =~= lens.push(bytes_len(strip_cr(o))));
            lemma_line_start_push(lens, bytes_len(strip_cr(o)), lens.len() as int);
            assert(utf8_len('\n') == 1) by {
                vstd::utf8::char_is_scalar('\n');
                reveal_with_fuel(vstd::utf8::encode_scalar, 1);
            }
            assert(Seq::<char>::empty().len() == 0);
            assert(bytes_len(Seq::<char>::empty()) == 0);
        } else {
            let o2 = o.push(s.last());
            assert(o2.drop_last() =~= o);
        }
    }
}

/// The cursor at the end of the last line stands at most one line ending
/// past the end of the text.
proof fn lemma_lines_room(s: Seq<char>)
    ensures
        line_start(line_lengths(s), line_lengths(s).len() as int) <= bytes_len(s) + LINE_ENDING_LENGTH,
{
    lemma_scan_room(s);
    let (d, o) = scan_lines(s);
    let lens = d.map_values(|l: Seq<char>| bytes_len(l));
    if o.len() > 0 {
        assert(line_lengths(s) =~= lens.push(bytes_len(o)));
        lemma_line_start_push(lens, bytes_len(o), lens.len() as int);
    } else {
        assert(line_lengths(s) =~= lens);
    }
}

proof fn lemma_locate_from(lens: Seq<nat>, i: int, c: int, j: int)
    requires
        0 <= j <= i < lens.len(),
        0 <= c <= lens[i],
    ensures
        locate(lens, line_start(lens, i) + c, j) == (i, c),
    decreases i - j,
{
    if j < i {
        lemma_line_start_mono(lens, j + 1, i);
        lemma_locate_from(lens, i, c, j + 1);
    }
}

proof fn lemma_find_line_from(count: int, i: int, j: int)
    requires
        0 <= j <= i < count,
        count <= 0x1_0000_0000,
    ensures
        find_line(count, i as u32, j) == Some(i),
    decreases i - j,
{
    if j < i {
        lemma_find_line_from(count, i, j + 1);
    }
}

/// Going from a position to a byte offset and back gives the position
/// again, for every line of a text of fewer than 2^32 lines and every
/// offset within that line (its end included).
pub proof fn law_position_round_trip(s: Seq<char>, line: u32, character: u32)
    requires
        line_lengths(s).len() <= 0x1_0000_0000,
        (line as int) < line_lengths(s).len(),
        (character as int) <= line_lengths(s)[line as int],
    ensures
        find_line(line_lengths(s).len() as int, line, 0) == Some(line as int),
        locate(line_lengths(s), line_start(line_lengths(s), line as int) + character, 0) == (line as int, character as int),
{
    lemma_find_line_from(line_lengths(s).len() as int, line as int, 0);
    lemma_locate_from(line_lengths(s), line as int, character as int, 0);
}

/// Whether `s` holds no carriage return.
pub open spec fn no_carriage_return(s: Seq<char>) -> bool {
    forall|i: int| 0 <= i < s.len() ==> s[i] != '\r'
}

/// Without carriage returns, the lines that a scan has ended, with one line
/// ending each, and the open line take exactly the room of the text.
proof fn lemma_scan_exact(s: Seq<char>)
    requires
        no_carriage_return(s),
    ensures
        ({
            let (done, open) = scan_lines(s);
            let lens = done.map_values(|l: Seq<char>| bytes_len(l));
            &&& line_start(lens, lens.len() as int) + bytes_len(open) == bytes_len(s)
            &&& no_carriage_return(open)
        }),
    decreases s.len(),
{
    if s.len() > 0 {
        let t = s.drop_last();
        assert(no_carriage_return(t)) by {
            assert forall|i: int| 0 <= i < t.len() implies t[i] != '\r' by {
                assert(t[i] == s[i]);
            }
        }
        lemma_scan_exact(t);
        let (d, o) = scan_lines(t);
        let lens = d.map_values(|l: Seq<char>| bytes_len(l));
        if s.last() == '\n' {
            assert(strip_cr(o) == o) by {
                if o.len() > 0 {
                    assert(o.last() == o[o.len() - 1]);
                }
            }
            let lens2 = d.push(strip_cr(o)).map_values(|l: Seq<char>| bytes_len(l));
            assert(lens2 =~= lens.push(bytes_len(strip_cr(o))));
            lemma_line_start_push(lens, bytes_len(strip_cr(o)), lens.len() as int);
            assert(utf8_len('\n') == 1) by {
                vstd::utf8::char_is_scalar('\n');
                reveal_with_fuel(vstd::utf8::encode_scalar, 1);
            }
            assert(bytes_len(Seq::<char>::empty()) == 0);
            assert(no_carriage_return(Seq::<char>::empty()));
        } else {
            let o2 = o.push(s.last());
            assert(o2.drop_last() =~= o);
            assert(no_carriage_return(o2)) by {
                assert forall|i: int| 0 <= i < o2.len() implies o2[i] != '\r' by {
                    if i < o.len() {
                        assert(o2[i] == o[i]);
                    } else {
                        assert(s[s.len() - 1] == s.last());
                    }
                }
            }
        }
    }
}

/// A text without carriage returns that does not end in a newline ends
/// where its last line ends.
proof fn lemma_last_line_end(s: Seq<char>)
    requires
        no_carriage_return(s),
        s.len() > 0,
        s.last() != '\n',
    ensures
        line_lengths(s).len() > 0,
        line_start(line_lengths(s), line_lengths(s).len() - 1) + line_lengths(s).last() == bytes_len(s),
{
    lemma_scan_exact(s);
    let (d, o) = scan_lines(s);
    let lens = d.map_values(|l: Seq<char>| bytes_len(l));
    let (d1, o1) = scan_lines(s.drop_last());
    assert(o == o1.push(s.last()));
    assert(line_lengths(s) =~= lens.push(bytes_len(o)));
    lemma_line_start_push(lens, bytes_len(o), lens.len() as int);
}

/// An offset no later than the end of the last line is found on the line
/// that holds it, at its distance from the line's start.
proof fn lemma_locate_inside(lens: Seq<nat>, pos: int, j: int)
    requires
        0 <= j < lens.len(),
        line_start(lens, j) <= pos <= line_start(lens, lens.len() - 1) + lens.last(),
    ensures
        ({
            let (l, c) = locate(lens, pos, j);
            &&& j <= l < lens.len()
            &&& c == pos - line_start(lens, l)
            &&& 0 <= c <= lens[l]
        }),
    decreases lens.len() - j,
{
    if pos > line_start(lens, j) + lens[j] {
        lemma_locate_inside(lens, pos, j + 1);
    }
}

/// Going from a byte offset to a position and back gives the offset again,
/// for every offset up to the end of a text that holds no carriage return,
/// does not end in a newline, and is shorter than 2^32 bytes, in fewer than
/// 2^32 lines.
pub proof fn law_offset_round_trip(s: Seq<char>, pos: usize)
    requires
        no_carriage_return(s),
        s.len() == 0 || s.last() != '\n',
        pos <= bytes_len(s),
        bytes_len(s) < 0x1_0000_0000,
        line_lengths(s).len() <= 0x1_0000_0000,
    ensures
        ({
            let lens = line_lengths(s);
            let (l, c) = locate(lens, pos as int, 0);
            let back = match find_line(lens.len() as int, l as u32, 0) {
                Some(i) => line_start(lens, i) + (c as u32),
                None => 0,
            };
            back == pos
        }),
{
    let lens = line_lengths(s);
    if s.len() == 0 {
        assert(scan_lines(s) == (Seq::<Seq<char>>::empty(), Seq::<char>::empty()));
        assert(lens.len() == 0);
        assert(bytes_len(s) == 0);
    } else {
        lemma_last_line_end(s);
        lemma_locate_inside(lens, pos as int, 0);
        let (l, c) = locate(lens, pos as int, 0);
        lemma_line_start_mono(lens, l, lens.len() - 1);
        lemma_line_start_mono(lens, 0, l);
        if l < lens.len() - 1 {
            lemma_line_start_mono(lens, l + 1, lens.len() - 1);
        }
        assert(c <= bytes_len(s));
        lemma_find_line_from(lens.len() as int, l, 0);
    }
}

/// The byte lengths of the lines of `s`.
fn lines_lengths(s: &str) -> (r: Vec<usize>)
    requires
        bytes_len(s@) < usize::MAX,
    ensures
        r@.len() == line_lengths(s@).len(),
        forall|i: int| 0 <= i < r@.len() ==> r@[i] as nat == #[trigger] line_lengths(s@)[i],
{
    let cs = chars_of(s);
    let mut done: Vec<usize> = Vec::new();
    let mut open_len: usize = 0;
    let mut open_cr = false;
    let mut open_some = false;
    let mut i: usize = 0;
    let ghost mut open: Seq<char> = Seq::empty();
    let ghost mut lines: Seq<Seq<char>> = Seq::empty();
    proof {
        assert(cs@.take(0) =~= Seq::<char>::empty());
    }
    while i < cs.len()
        invariant
            i <= cs@.len(),
            cs@ == s@,
            bytes_len(s@) < usize::MAX,
            scan_lines(cs@.take(i as int)) == (lines, open),
            done@.len() == lines.len(),
            forall|j: int| 0 <= j < lines.len() ==> done@[j] as nat == #[trigger] bytes_len(lines[j]),
            open_len == bytes_len(open),
            open_cr == (open.len() > 0 && open.last() == '\r'),
            open_some == (open.len() > 0),
            line_start(lines.map_values(|l: Seq<char>| bytes_len(l)), lines.len() as int) + bytes_len(open)
                <= bytes_len(cs@.take(i as int)),
            bytes_len(cs@.take(i as int)) <= bytes_len(s@),
        decreases cs.len() - i,
    {
        let c = cs[i];
        proof {
            assert(cs@.take(i as int + 1).drop_last() =~= cs@.take(i as int));
            assert(cs@.take(i as int + 1).last() == c);
            lemma_scan_room(cs@.take(i as int + 1));
            crate::text::lemma_byte_offset_mono(cs@, i as int + 1, cs@.len() as int);
            assert(cs@.take(cs@.len() as int) =~= cs@);
        }
        if c == '\n' {
            proof {
                lemma_strip_cr_len(open);
            }
            let n = if open_cr { open_len - 1 } else { open_len };
            done.push(n);
            proof {
                lines = lines.push(strip_cr(open));
                open = Seq::empty();
            }
            open_len = 0;
            open_cr = false;
            open_some = false;
        } else {
            let w = char_utf8_len(c);
            proof {
                assert(scan_lines(cs@.take(i as int + 1)) == (lines, open.push(c)));
                lemma_line_start_mono(lines.map_values(|l: Seq<char>| bytes_len(l)), 0, lines.len() as int);
                assert(open.push(c).drop_last() =~= open);
                assert(bytes_len(open.push(c)) == bytes_len(open) + utf8_len(c));
            }
            open_len = open_len + w;
            open_cr = c == '\r';
            open_some = true;
            proof {
                open = open.push(c);
            }
        }
        i += 1;
    }
    proof {
        assert(cs@.take(i as int) =~= s@);
    }
    if open_some {
        done.push(open_len);
    }
    proof {
        if open.len() > 0 {
            assert(lines_of(s@) == lines.push(open));
        } else {
            assert(lines_of(s@) == lines);
        }
    }
    done
}

/// The line and the offset within it of byte offset `position` of
/// `contents`: the first line whose end `position` does not pass; past the
/// last line, the number of lines and offset 0. Both numbers are cut to 32
/// bits.
pub fn source_to_line(contents: &String, position: usize) -> (r: Position)
    requires
        bytes_len(contents@) < usize::MAX,
    ensures
        ({
            let (line, character) = locate(line_lengths(contents@), position as int, 0);
            r == Position { line: line as u32, character: character as u32 }
        }),
{
    let lens = lines_lengths(contents.as_str());
    let ghost ls = line_lengths(contents@);
    proof {
        lemma_lines_room(contents@);
    }
    let mut cursor: usize = 0;
    let mut i: usize = 0;
    while i < lens.len()
        invariant
            i <= lens@.len(),
            lens@.len() == ls.len(),
            forall|j: int| 0 <= j < lens@.len() ==> lens@[j] as nat == #[trigger] ls[j],
            ls == line_lengths(contents@),
            cursor == line_start(ls, i as int),
            line_start(ls, ls.len() as int) <= bytes_len(contents@) + LINE_ENDING_LENGTH,
            bytes_len(contents@) < usize::MAX,
            locate(ls, position as int, 0) == locate(ls, position as int, i as int),
        decreases lens.len() - i,
    {
        proof {
            lemma_line_start_mono(ls, i as int + 1, ls.len() as int);
            assert(line_start(ls, i as int + 1) == cursor + ls[i as int] + LINE_ENDING_LENGTH);
        }
        let line_end = cursor + lens[i];
        if position <= line_end {
            let character: usize = if position >= cursor { position - cursor } else { 0 };
            proof {
                assert(locate(ls, position as int, i as int) == (i as int, character as int));
            }
            return Position { line: i as u32, character: character as u32 };
        }
        cursor = line_end + LINE_ENDING_LENGTH;
        i += 1;
    }
    Position { line: lens.len() as u32, character: 0 }
}

/// The byte offset of `position` in `contents`: the start of the first
/// line whose number, cut to 32 bits, is `position.line`, plus
/// `position.character`; 0 when there is no such line.
pub fn line_to_source(contents: &String, position: Position) -> (r: usize)
    requires
        bytes_len(contents@) + LINE_ENDING_LENGTH + position.character <= usize::MAX,
    ensures
        r == match find_line(line_lengths(contents@).len() as int, position.line, 0) {
            Some(i) => line_start(line_lengths(contents@), i) + position.character,
            None => 0,
        },
{
    let lens = lines_lengths(contents.as_str());
    let ghost ls = line_lengths(contents@);
    proof {
        lemma_lines_room(contents@);
    }
    let mut cursor: usize = 0;
    let mut i: usize = 0;
    while i < lens.len()
        invariant
            i <= lens@.len(),
            lens@.len() == ls.len(),
            forall|j: int| 0 <= j < lens@.len() ==> lens@[j] as nat == #[trigger] ls[j],
            ls == line_lengths(contents@),
            cursor == line_start(ls, i as int),
            line_start(ls, ls.len() as int) <= bytes_len(contents@) + LINE_ENDING_LENGTH,
            bytes_len(contents@) + LINE_ENDING_LENGTH + position.character <= usize::MAX,
            find_line(ls.len() as int, position.line, 0) == find_line(ls.len() as int, position.line, i as int),
        decreases lens.len() - i,
    {
        proof {
            lemma_line_start_mono(ls, i as int, ls.len() as int);
            lemma_line_start_mono(ls, i as int + 1, ls.len() as int);
        }
        let line_end = cursor + lens[i];
        if position.line == i as u32 {
            proof {
                assert(find_line(ls.len() as int, position.line, i as int) == Some(i as int));
            }
            return cursor + position.character as usize;
        }
        cursor = line_end + LINE_ENDING_LENGTH;
        i += 1;
    }
    0
}

} // verus!
