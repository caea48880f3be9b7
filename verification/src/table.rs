//! Reading a comma-separated data file: its lines, the fields of a line,
//! and the whole numbers that fields hold.

use vstd::prelude::*;
use crate::decimal::{
    all_digits, digits_value, is_digit, is_digit_spec, lemma_digits_bounds, lemma_digits_concat,
    lemma_pow10_positive, pow10,
};
use vstd::string::StringExecFns;
use crate::text::{
    append_chars, chars_of, number_text, number_text_spec, string_of, trim, trim_spec,
};

verus! {

/// Why a file is no table.
#[derive(Debug, Clone, Copy, PartialEq, Eq)]
pub enum TableError {
    /// The file has no line.
    Empty,
    /// The line with this number, counted from one, has another number of
    /// fields than the first line.
    Inconsistent { line: usize },
}

impl TableError {
    /// What the error says, in words.
    pub open spec fn text(self) -> Seq<char> {
        match self {
            TableError::Empty => "Racecard file is empty"@,
            TableError::Inconsistent { line } => "Inconsistent number of columns at line "@
                + number_text_spec(line as nat),
        }
    }

    /// What the error says, in words.
    pub fn message(&self) -> (m: String)
        ensures
            m@ == self.text(),
    {
        match self {
            TableError::Empty => String::from_str("Racecard file is empty"),
            TableError::Inconsistent { line } => {
                let mut m = String::from_str("Inconsistent number of columns at line ");
                append_chars(&mut m, &number_text(*line as u64));
                m
            },
        }
    }
}

/// The pieces of a text read so far: those that are closed, and the one
/// that is still open.
pub struct Pieces {
    pub done: Seq<Seq<char>>,
    pub open: Seq<char>,
}

/// The pieces that `s` falls into at each `sep`.
pub open spec fn pieces_of(s: Seq<char>, sep: char) -> Pieces
    decreases s.len(),
{
    if s.len() == 0 {
        Pieces { done: Seq::empty(), open: Seq::empty() }
    } else {
        let before = pieces_of(s.drop_last(), sep);
        if s.last() == sep {
            Pieces { done: before.done.push(before.open), open: Seq::empty() }
        } else {
            Pieces { done: before.done, open: before.open.push(s.last()) }
        }
    }
}

/// The parts of `s` between its separators; one more than there are
/// separators.
pub open spec fn split_spec(s: Seq<char>, sep: char) -> Seq<Seq<char>> {
    let p = pieces_of(s, sep);
    p.done.push(p.open)
}

/// `s` without one carriage return at its end.
pub open spec fn without_return(s: Seq<char>) -> Seq<char> {
    if s.len() > 0 && s.last() == '\r' {
        s.drop_last()
    } else {
        s
    }
}

/// The lines of a text. A line ends at a line feed, and a carriage return
/// before the line feed belongs to the line end; what follows the last line
/// feed is a line of its own unless it is empty.
pub open spec fn lines_spec(s: Seq<char>) -> Seq<Seq<char>> {
    let p = pieces_of(s, '\n');
    let closed = Seq::new(p.done.len(), |i: int| without_return(p.done[i]));
    if p.open.len() > 0 {
        closed.push(p.open)
    } else {
        closed
    }
}

/// `s` without the characters `c` at its start.
pub open spec fn strip_start_spec(s: Seq<char>, c: char) -> Seq<char>
    decreases s.len(),
{
    if s.len() == 0 || s[0] != c {
        s
    } else {
        strip_start_spec(s.drop_first(), c)
    }
}

/// `s` without the characters `c` at its end.
pub open spec fn strip_end_spec(s: Seq<char>, c: char) -> Seq<char>
    decreases s.len(),
{
    if s.len() == 0 || s.last() != c {
        s
    } else {
        strip_end_spec(s.drop_last(), c)
    }
}

/// A field as it stands in a line, made ready: trimmed, and without the
/// double quotes around it.
pub open spec fn field_spec(raw: Seq<char>) -> Seq<char> {
    strip_end_spec(strip_start_spec(trim_spec(raw), '"'), '"')
}

/// The fields of a line.
pub open spec fn fields_spec(line: Seq<char>) -> Seq<Seq<char>> {
    let raw = split_spec(line, ',');
    Seq::new(raw.len(), |i: int| field_spec(raw[i]))
}

/// The views of rows of characters.
pub open spec fn rows_view(rows: Seq<Vec<char>>) -> Seq<Seq<char>> {
    Seq::new(rows.len(), |i: int| rows[i]@)
}

/// The parts of `s` between its separators `sep`.
pub fn split(s: &Vec<char>, sep: char) -> (parts: Vec<Vec<char>>)
    ensures
        rows_view(parts@) == split_spec(s@, sep),
        parts@.len() >= 1,
{
    let mut done: Vec<Vec<char>> = Vec::new();
    let mut open: Vec<char> = Vec::new();
    let mut i: usize = 0;
    proof {
        assert(s@.take(0) =~= Seq::<char>::empty());
        assert(rows_view(done@) =~= Seq::<Seq<char>>::empty());
    }
    while i < s.len()
        invariant
            i <= s@.len(),
            pieces_of(s@.take(i as int), sep) == (Pieces { done: rows_view(done@), open: open@ }),
        decreases s@.len() - i,
    {
        let c = s[i];
        proof {
            assert(s@.take(i + 1).drop_last() =~= s@.take(i as int));
        }
        if c == sep {
            let ghost before = rows_view(done@);
            done.push(open);
            open = Vec::new();
            proof {
                assert(rows_view(done@) =~= before.push(done@[done@.len() - 1]@));
            }
        } else {
            open.push(c);
        }
        i += 1;
    }
    proof {
        assert(s@.take(s@.len() as int) =~= s@);
    }
    let ghost before = rows_view(done@);
    done.push(open);
    proof {
        assert(rows_view(done@) =~= before.push(done@[done@.len() - 1]@));
    }
    done
}

/// The lines of `s`.
pub fn lines(s: &Vec<char>) -> (r: Vec<Vec<char>>)
    ensures
        rows_view(r@) == lines_spec(s@),
{
    let mut done: Vec<Vec<char>> = Vec::new();
    let mut open: Vec<char> = Vec::new();
    let ghost mut raw: Seq<Seq<char>> = Seq::empty();
    let mut i: usize = 0;
    proof {
        assert(s@.take(0) =~= Seq::<char>::empty());
    }
    while i < s.len()
        invariant
            i <= s@.len(),
            pieces_of(s@.take(i as int), '\n') == (Pieces { done: raw, open: open@ }),
            done@.len() == raw.len(),
            forall|k: int| 0 <= k < raw.len() ==> (#[trigger] done@[k])@ == without_return(raw[k]),
        decreases s@.len() - i,
    {
        let c = s[i];
        proof {
            assert(s@.take(i + 1).drop_last() =~= s@.take(i as int));
        }
        if c == '\n' {
            proof {
                raw = raw.push(open@);
            }
            if open.len() > 0 && open[open.len() - 1] == '\r' {
                open.pop();
            }
            done.push(open);
            open = Vec::new();
        } else {
            open.push(c);
        }
        i += 1;
    }
    proof {
        assert(s@.take(s@.len() as int) =~= s@);
    }
    let ghost closed = rows_view(done@);
    proof {
        assert(closed =~= Seq::new(raw.len(), |k: int| without_return(raw[k])));
    }
    if open.len() > 0 {
        done.push(open);
        proof {
            assert(rows_view(done@) =~= closed.push(done@[done@.len() - 1]@));
        }
    }
    done
}

proof fn lemma_strip_start_is_skip(s: Seq<char>, c: char, k: int)
    requires
        0 <= k <= s.len(),
        forall|i: int| 0 <= i < k ==> #[trigger] s[i] == c,
        k == s.len() || s[k] != c,
    ensures
        strip_start_spec(s, c) == s.skip(k),
    decreases k,
{
    if k == 0 {
        assert(s.skip(0) =~= s);
    } else {
        let t = s.drop_first();
        assert forall|i: int| 0 <= i < k - 1 implies #[trigger] t[i] == c by {
            assert(t[i] == s[i + 1]);
        }
        lemma_strip_start_is_skip(t, c, k - 1);
        assert(t.skip(k - 1) =~= s.skip(k));
    }
}

proof fn lemma_strip_end_is_take(s: Seq<char>, c: char, k: int)
    requires
        0 <= k <= s.len(),
        forall|i: int| k <= i < s.len() ==> #[trigger] s[i] == c,
        k == 0 || s[k - 1] != c,
    ensures
        strip_end_spec(s, c) == s.take(k),
    decreases s.len() - k,
{
    if k == s.len() {
        assert(s.take(k) =~= s);
    } else {
        let t = s.drop_last();
        lemma_strip_end_is_take(t, c, k);
        assert(t.take(k) =~= s.take(k));
    }
}

/// `s` without the characters `c` at its start and at its end.
pub fn strip(s: &Vec<char>, c: char) -> (r: Vec<char>)
    ensures
        r@ == strip_end_spec(strip_start_spec(s@, c), c),
{
    let n: usize = s.len();
    let mut start: usize = 0;
    while start < n && s[start] == c
        invariant
            n == s@.len(),
            start <= n,
            forall|i: int| 0 <= i < start ==> #[trigger] s@[i] == c,
        decreases n - start,
    {
        start += 1;
    }
    let mut end: usize = n;
    while end > start && s[end - 1] == c
        invariant
            n == s@.len(),
            start <= end <= n,
            forall|i: int| end <= i < n ==> #[trigger] s@[i] == c,
        decreases end,
    {
        end -= 1;
    }
    let mut r: Vec<char> = Vec::new();
    let mut i: usize = start;
    while i < end
        invariant
            n == s@.len(),
            start <= i <= end <= n,
            r@ == s@.subrange(start as int, i as int),
        decreases end - i,
    {
        r.push(s[i]);
        proof {
            assert(s@.subrange(start as int, i as int).push(s@[i as int]) =~= s@.subrange(
                start as int,
                i + 1,
            ));
        }
        i += 1;
    }
    proof {
        lemma_strip_start_is_skip(s@, c, start as int);
        let t = s@.skip(start as int);
        assert forall|j: int| end - start <= j < t.len() implies #[trigger] t[j] == c by {
            assert(t[j] == s@[j + start]);
        }
        if end > start {
            assert(t[end - start - 1] == s@[end - 1]);
        }
        lemma_strip_end_is_take(t, c, end - start);
        assert(t.take(end - start) =~= s@.subrange(start as int, end as int));
    }
    r
}

/// The fields of the line `line`: its parts between commas, each trimmed
/// and without the double quotes around it.
pub fn fields_of(line: &Vec<char>) -> (fields: Vec<Vec<char>>)
    ensures
        rows_view(fields@) == fields_spec(line@),
        fields@.len() >= 1,
{
    let raw = split(line, ',');
    let ghost want = split_spec(line@, ',');
    let mut fields: Vec<Vec<char>> = Vec::new();
    let mut i: usize = 0;
    while i < raw.len()
        invariant
            i <= raw@.len(),
            rows_view(raw@) == want,
            fields@.len() == i,
            forall|k: int| 0 <= k < i ==> (#[trigger] fields@[k])@ == field_spec(want[k]),
        decreases raw@.len() - i,
    {
        proof {
            assert(rows_view(raw@)[i as int] == raw@[i as int]@);
        }
        let trimmed = trim(&raw[i]);
        fields.push(strip(&trimmed, '"'));
        i += 1;
    }
    proof {
        assert(rows_view(fields@) =~= fields_spec(line@));
    }
    fields
}

/// The characters of each field of each row.
pub open spec fn table_view(rows: Seq<Vec<String>>) -> Seq<Seq<Seq<char>>> {
    Seq::new(rows.len(), |i: int| Seq::new(rows[i]@.len(), |j: int| rows[i]@[j]@))
}

/// The rows of a text: the fields of each of its lines.
pub open spec fn rows_spec(contents: Seq<char>) -> Seq<Seq<Seq<char>>> {
    let lines = lines_spec(contents);
    Seq::new(lines.len(), |i: int| fields_spec(lines[i]))
}

/// Whether every row before `n` has as many fields as the first.
pub open spec fn even_rows(rows: Seq<Seq<Seq<char>>>, n: int) -> bool {
    forall|j: int| 0 <= j < n ==> (#[trigger] rows[j]).len() == rows[0].len()
}

fn strings_of(fields: &Vec<Vec<char>>) -> (row: Vec<String>)
    ensures
        row@.len() == fields@.len(),
        forall|j: int| 0 <= j < row@.len() ==> (#[trigger] row@[j])@ == fields@[j]@,
{
    let mut row: Vec<String> = Vec::new();
    let mut j: usize = 0;
    while j < fields.len()
        invariant
            j <= fields@.len(),
            row@.len() == j,
            forall|k: int| 0 <= k < j ==> (#[trigger] row@[k])@ == fields@[k]@,
        decreases fields@.len() - j,
    {
        row.push(string_of(&fields[j]));
        j += 1;
    }
    row
}

/// The table that `contents` holds: the fields of each line. An error where
/// the text has no line, and where a line has another number of fields than
/// the first; the error then names the first such line.
pub fn read_table(contents: &str) -> (r: Result<Vec<Vec<String>>, TableError>)
    ensures
        match r {
            Ok(rows) => {
                &&& table_view(rows@) == rows_spec(contents@)
                &&& rows@.len() > 0
                &&& even_rows(rows_spec(contents@), rows@.len() as int)
            },
            Err(TableError::Empty) => rows_spec(contents@).len() == 0,
            Err(TableError::Inconsistent { line }) => {
                let rows = rows_spec(contents@);
                &&& 1 <= line <= rows.len()
                &&& even_rows(rows, line - 1)
                &&& rows[line - 1].len() != rows[0].len()
            },
        },
{
    let chars = chars_of(contents);
    let all = lines(&chars);
    let ghost want = rows_spec(contents@);
    if all.len() == 0 {
        return Err(TableError::Empty);
    }
    let mut rows: Vec<Vec<String>> = Vec::new();
    let mut width: usize = 0;
    let mut i: usize = 0;
    while i < all.len()
        invariant
            i <= all@.len(),
            all@.len() > 0,
            rows_view(all@) == lines_spec(contents@),
            want == rows_spec(contents@),
            rows@.len() == i,
            i > 0 ==> width == want[0].len(),
            even_rows(want, i as int),
            forall|k: int|
                0 <= k < i ==> (#[trigger] rows@[k])@.len() == want[k].len() && forall|j: int|
                    0 <= j < want[k].len() ==> (#[trigger] rows@[k]@[j])@ == want[k][j],
        decreases all@.len() - i,
    {
        proof {
            assert(rows_view(all@)[i as int] == all@[i as int]@);
        }
        let fields = fields_of(&all[i]);
        proof {
            assert(rows_view(fields@) == want[i as int]);
            assert forall|j: int| 0 <= j < fields@.len() implies (#[trigger] fields@[j])@
                == want[i as int][j] by {
                assert(rows_view(fields@)[j] == fields@[j]@);
            }
        }
        if i == 0 {
            width = fields.len();
        } else if fields.len() != width {
            return Err(TableError::Inconsistent { line: i + 1 });
        }
        rows.push(strings_of(&fields));
        i += 1;
    }
    proof {
        assert forall|k: int| 0 <= k < rows@.len() implies #[trigger] table_view(rows@)[k]
            =~= want[k] by {
            assert forall|j: int| 0 <= j < want[k].len() implies table_view(rows@)[k][j]
                == want[k][j] by {
                assert(rows@[k]@[j]@ == want[k][j]);
            }
        }
        assert(table_view(rows@) =~= want);
    }
    Ok(rows)
}

/// The number that a row of digits, with or without a `+` before it,
/// writes; `None` for any other text.
pub open spec fn unsigned_spec(s: Seq<char>) -> Option<int> {
    let body = if s.len() > 0 && s[0] == '+' {
        s.drop_first()
    } else {
        s
    };
    if body.len() > 0 && all_digits(body) {
        Some(digits_value(body))
    } else {
        None
    }
}

/// The number of 32 bits that a field writes; `None` where the field is no
/// row of digits or the number does not fit.
pub open spec fn parse_u32_spec(s: Seq<char>) -> Option<u32> {
    match unsigned_spec(s) {
        Some(v) => if v <= u32::MAX {
            Some(v as u32)
        } else {
            None
        },
        None => None,
    }
}

/// The signed number of 32 bits that a field writes: a row of digits with
/// or without a sign before it; `None` for any other text and where the
/// number does not fit.
pub open spec fn parse_i32_spec(s: Seq<char>) -> Option<i32> {
    if s.len() > 0 && s[0] == '-' {
        let body = s.drop_first();
        if body.len() > 0 && all_digits(body) && digits_value(body) <= 0x8000_0000 {
            Some((-digits_value(body)) as i32)
        } else {
            None
        }
    } else {
        match unsigned_spec(s) {
            Some(v) => if v <= i32::MAX {
                Some(v as i32)
            } else {
                None
            },
            None => None,
        }
    }
}

proof fn lemma_digits_grow(s: Seq<char>, j: int)
    requires
        all_digits(s),
        0 <= j <= s.len(),
    ensures
        0 <= digits_value(s.take(j)) <= digits_value(s),
{
    let a = s.take(j);
    let b = s.skip(j);
    assert(s =~= a + b);
    assert forall|i: int| 0 <= i < a.len() implies is_digit_spec(#[trigger] a[i]) by {
        assert(a[i] == s[i]);
    }
    assert forall|i: int| 0 <= i < b.len() implies is_digit_spec(#[trigger] b[i]) by {
        assert(b[i] == s[i + j]);
    }
    lemma_digits_bounds(a);
    lemma_digits_bounds(b);
    lemma_digits_concat(a, b);
    lemma_pow10_positive(b.len());
    assert(digits_value(a) * pow10(b.len()) >= digits_value(a)) by (nonlinear_arith)
        requires
            digits_value(a) >= 0,
            pow10(b.len()) >= 1,
    ;
}

/// The number that the digits of `s` from `start` on write, where there is
/// at least one, nothing but digits follows and the number is at most
/// `limit`.
fn scan_number(s: &Vec<char>, start: usize, limit: u64) -> (r: Option<u64>)
    requires
        start <= s@.len(),
        limit <= 0xffff_ffff,
    ensures
        r is Some <==> s@.len() > start && all_digits(s@.skip(start as int)) && digits_value(
            s@.skip(start as int),
        ) <= limit,
        r is Some ==> r->0 == digits_value(s@.skip(start as int)),
{
    let n: usize = s.len();
    let ghost body = s@.skip(start as int);
    if start == n {
        return None;
    }
    let mut value: u64 = 0;
    let mut i: usize = start;
    proof {
        assert(body.take(0) =~= Seq::<char>::empty());
    }
    while i < n
        invariant
            n == s@.len(),
            start <= i <= n,
            body == s@.skip(start as int),
            forall|k: int| 0 <= k < i - start ==> is_digit_spec(#[trigger] body[k]),
            value == digits_value(body.take(i - start)),
            value <= limit,
            limit <= 0xffff_ffff,
        decreases n - i,
    {
        let c = s[i];
        proof {
            assert(body[i - start] == c);
            assert(body.take(i - start + 1).drop_last() =~= body.take(i - start));
        }
        if !is_digit(c) {
            return None;
        }
        value = value * 10 + (c as u32 - 48) as u64;
        if value > limit {
            proof {
                if all_digits(body) {
                    lemma_digits_grow(body, i - start + 1);
                }
            }
            return None;
        }
        i += 1;
    }
    proof {
        assert(body.take(n - start) =~= body);
    }
    Some(value)
}

/// The number of 32 bits that `field` writes.
pub fn parse_u32(field: &str) -> (r: Option<u32>)
    ensures
        r == parse_u32_spec(field@),
{
    let chars = chars_of(field);
    let start: usize = if chars.len() > 0 && chars[0] == '+' {
        1
    } else {
        0
    };
    proof {
        if start == 1 {
            assert(chars@.drop_first() =~= chars@.skip(1));
        } else {
            assert(chars@ =~= chars@.skip(0));
        }
    }
    match scan_number(&chars, start, 0xffff_ffff) {
        Some(v) => Some(v as u32),
        None => None,
    }
}

/// The signed number of 32 bits that `field` writes.
pub fn parse_i32(field: &str) -> (r: Option<i32>)
    ensures
        r == parse_i32_spec(field@),
{
    let chars = chars_of(field);
    if chars.len() > 0 && chars[0] == '-' {
        proof {
            assert(chars@.drop_first() =~= chars@.skip(1));
        }
        match scan_number(&chars, 1, 0x8000_0000) {
            Some(v) => Some((-(v as i64)) as i32),
            None => None,
        }
    } else {
        let start: usize = if chars.len() > 0 && chars[0] == '+' {
            1
        } else {
            0
        };
        proof {
            if start == 1 {
                assert(chars@.drop_first() =~= chars@.skip(1));
            } else {
                assert(chars@ =~= chars@.skip(0));
            }
        }
        match scan_number(&chars, start, 0x7fff_ffff) {
            Some(v) => Some(v as i32),
            None => None,
        }
    }
}

/// The place of the first of `numbers` that equals `number`; `None` where
/// none does.
pub fn find_race(numbers: &Vec<Option<u32>>, number: Option<u32>) -> (r: Option<usize>)
    ensures
        match r {
            Some(i) => {
                &&& i < numbers@.len()
                &&& numbers@[i as int] == number
                &&& forall|j: int| 0 <= j < i ==> numbers@[j] != number
            },
            None => forall|j: int| 0 <= j < numbers@.len() ==> numbers@[j] != number,
        },
{
    let mut i: usize = 0;
    while i < numbers.len()
        invariant
            i <= numbers@.len(),
            forall|j: int| 0 <= j < i ==> numbers@[j] != number,
        decreases numbers@.len() - i,
    {
        if same_number(numbers[i], number) {
            return Some(i);
        }
        i += 1;
    }
    None
}

/// The places that each group lists, as integers.
pub open spec fn groups_view(groups: Seq<Vec<usize>>) -> Seq<Seq<int>> {
    Seq::new(groups.len(), |g: int| Seq::new(groups[g]@.len(), |k: int| groups[g]@[k] as int))
}

/// Whether `groups` puts the lines with the race numbers `numbers` into
/// races: each group holds, in their order, all the lines of one number
/// and no other line, and the groups stand in the order in which their
/// numbers first appear.
pub open spec fn is_grouping(groups: Seq<Seq<int>>, numbers: Seq<Option<u32>>) -> bool {
    &&& forall|g: int| 0 <= g < groups.len() ==> (#[trigger] groups[g]).len() > 0
    &&& forall|g: int, k: int|
        0 <= g < groups.len() && 0 <= k < groups[g].len() ==> 0 <= #[trigger] groups[g][k]
            < numbers.len()
    &&& forall|g: int, k: int|
        0 <= g < groups.len() && 0 <= k < groups[g].len() ==> numbers[#[trigger] groups[g][k]]
            == numbers[groups[g][0]]
    &&& forall|g: int, k: int, l: int|
        0 <= g < groups.len() && 0 <= k < l < groups[g].len() ==> #[trigger] groups[g][k]
            < #[trigger] groups[g][l]
    &&& forall|g: int, h: int|
        0 <= g < h < groups.len() ==> (#[trigger] groups[g])[0] < (#[trigger] groups[h])[0]
            && numbers[groups[g][0]] != numbers[groups[h][0]]
    &&& forall|i: int| 0 <= i < numbers.len() ==> in_a_group(groups, i)
}

/// Whether one of `groups` lists the line `i`.
pub open spec fn in_a_group(groups: Seq<Seq<int>>, i: int) -> bool {
    exists|g: int, k: int|
        0 <= g < groups.len() && 0 <= k < groups[g].len() && #[trigger] groups[g][k] == i
}

/// The lines of a card put into races by their race numbers `numbers`: one
/// group of line places for each number, in the order in which the numbers
/// first appear, each group in the order of the lines.
pub fn group_lines(numbers: &Vec<Option<u32>>) -> (groups: Vec<Vec<usize>>)
    ensures
        is_grouping(groups_view(groups@), numbers@),
{
    let n: usize = numbers.len();
    let mut keys: Vec<Option<u32>> = Vec::new();
    let mut groups: Vec<Vec<usize>> = Vec::new();
    let ghost mut listed: Seq<Seq<int>> = Seq::empty();
    let mut i: usize = 0;
    while i < n
        invariant
            n == numbers@.len(),
            i <= n,
            keys@.len() == listed.len(),
            groups@.len() == listed.len(),
            forall|g: int|
                0 <= g < listed.len() ==> (#[trigger] groups@[g])@.len() == listed[g].len(),
            forall|g: int, k: int|
                0 <= g < listed.len() && 0 <= k < listed[g].len() ==> groups@[g]@[k]
                    == #[trigger] listed[g][k],
            forall|g: int|
                0 <= g < listed.len() ==> (#[trigger] listed[g]).len() > 0 && keys@[g]
                    == numbers@[listed[g][0]],
            forall|g: int, k: int|
                0 <= g < listed.len() && 0 <= k < listed[g].len() ==> 0 <= #[trigger] listed[g][k]
                    < i && numbers@[listed[g][k]] == keys@[g],
            forall|g: int, k: int, l: int|
                0 <= g < listed.len() && 0 <= k < l < listed[g].len() ==> #[trigger] listed[g][k]
                    < #[trigger] listed[g][l],
            forall|g: int, h: int|
                0 <= g < h < listed.len() ==> (#[trigger] listed[g])[0] < (#[trigger] listed[h])[0]
                    && keys@[g] != keys@[h],
            forall|j: int| 0 <= j < i ==> in_a_group(listed, j),
        decreases n - i,
    {
        let number = numbers[i];
        let ghost before = listed;
        match find_race(&keys, number) {
            Some(g) => {
                let mut group = groups.remove(g);
                group.push(i);
                groups.insert(g, group);
                proof {
                    listed = before.update(g as int, before[g as int].push(i as int));
                    assert forall|j: int| 0 <= j < i + 1 implies in_a_group(listed, j) by {
                        if j < i {
                            assert(in_a_group(before, j));
                            let (h, k) = choose|h: int, k: int|
                                0 <= h < before.len() && 0 <= k < before[h].len()
                                    && #[trigger] before[h][k] == j;
                            assert(listed[h][k] == j);
                        } else {
                            assert(listed[g as int][before[g as int].len() as int] == j);
                        }
                    }
                    assert forall|h: int| 0 <= h < listed.len() implies (#[trigger] listed[h]).len()
                        > 0 && keys@[h] == numbers@[listed[h][0]] by {
                        assert(before[h].len() > 0);
                        assert(listed[h][0] == before[h][0]);
                    }
                    assert forall|h: int, k: int|
                        0 <= h < listed.len() && 0 <= k < listed[h].len() implies 0
                        <= #[trigger] listed[h][k] < i + 1 && numbers@[listed[h][k]]
                        == keys@[h] by {
                        if h != g || k < before[h].len() {
                            assert(listed[h][k] == before[h][k]);
                        }
                    }
                    assert forall|h: int, k: int, l: int|
                        0 <= h < listed.len() && 0 <= k < l < listed[h].len() implies
                        #[trigger] listed[h][k] < #[trigger] listed[h][l] by {
                        assert(listed[h][k] == before[h][k]);
                        if h != g || l < before[h].len() {
                            assert(listed[h][l] == before[h][l]);
                        }
                    }
                    assert forall|a: int, b: int| 0 <= a < b < listed.len() implies (
                    #[trigger] listed[a])[0] < (#[trigger] listed[b])[0] && keys@[a]
                        != keys@[b] by {
                        assert(before[a].len() > 0 && before[b].len() > 0);
                        assert(before[a][0] < before[b][0]);
                        assert(listed[a][0] == before[a][0]);
                        assert(listed[b][0] == before[b][0]);
                    }
                }
            },
            None => {
                let mut group: Vec<usize> = Vec::new();
                group.push(i);
                keys.push(number);
                groups.push(group);
                proof {
                    listed = before.push(seq![i as int]);
                    assert forall|j: int| 0 <= j < i + 1 implies in_a_group(listed, j) by {
                        if j < i {
                            assert(in_a_group(before, j));
                            let (h, k) = choose|h: int, k: int|
                                0 <= h < before.len() && 0 <= k < before[h].len()
                                    && #[trigger] before[h][k] == j;
                            assert(listed[h][k] == j);
                        } else {
                            assert(listed[before.len() as int][0] == j);
                        }
                    }
                    assert forall|a: int, b: int| 0 <= a < b < listed.len() implies (
                    #[trigger] listed[a])[0] < (#[trigger] listed[b])[0] && keys@[a]
                        != keys@[b] by {
                        assert(before[a].len() > 0);
                        assert(before[a][0] < i);
                        if b < before.len() {
                            assert(before[a][0] < before[b][0]);
                        }
                    }
                }
            },
        }
        i += 1;
    }
    proof {
        let view = groups_view(groups@);
        assert forall|g: int| 0 <= g < view.len() implies #[trigger] view[g] =~= listed[g] by {
            assert(groups@[g]@.len() == listed[g].len());
        }
        assert(view =~= listed);
        assert forall|g: int, h: int| 0 <= g < h < listed.len() implies numbers@[listed[g][0]]
            != numbers@[listed[h][0]] by {
            assert(listed[g].len() > 0 && listed[h].len() > 0);
            assert(keys@[g] != keys@[h]);
        }
        assert forall|g: int, k: int|
            0 <= g < listed.len() && 0 <= k < listed[g].len() implies numbers@[
            #[trigger] listed[g][k]] == numbers@[listed[g][0]] by {
            assert(listed[g].len() > 0);
        }
    }
    groups
}

fn same_number(a: Option<u32>, b: Option<u32>) -> (r: bool)
    ensures
        r == (a == b),
{
    match (a, b) {
        (Some(x), Some(y)) => x == y,
        (None, None) => true,
        _ => false,
    }
}

} // verus!
