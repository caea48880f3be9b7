//! The names of record fields in the two spellings that the application
//! and its user interface use: `snake_case` and `camelCase`.

use vstd::prelude::*;
use crate::decimal::{is_digit, is_digit_spec};
use crate::text::{chars_of, ends_with_spec, string_of};

verus! {

/// Whether `c` is an ASCII capital.
pub open spec fn is_upper_spec(c: char) -> bool {
    65 <= c as u32 <= 90
}

/// Whether `c` is an ASCII lower-case letter.
pub open spec fn is_lower_spec(c: char) -> bool {
    97 <= c as u32 <= 122
}

/// The lower-case form of an ASCII capital; any other character as it is.
pub open spec fn lower_spec(c: char) -> char {
    if is_upper_spec(c) {
        (c as u32 + 32) as char
    } else {
        c
    }
}

/// The capital of an ASCII lower-case letter; any other character as it is.
pub open spec fn upper_spec(c: char) -> char {
    if is_lower_spec(c) {
        (c as u32 - 32) as char
    } else {
        c
    }
}

/// Whether `c` is an ASCII capital.
pub fn is_upper(c: char) -> (r: bool)
    ensures
        r == is_upper_spec(c),
{
    let n: u32 = c as u32;
    65 <= n && n <= 90
}

/// Whether `c` is an ASCII lower-case letter.
pub fn is_lower(c: char) -> (r: bool)
    ensures
        r == is_lower_spec(c),
{
    let n: u32 = c as u32;
    97 <= n && n <= 122
}

/// The lower-case form of an ASCII capital; any other character as it is.
pub fn to_lower(c: char) -> (r: char)
    ensures
        r == lower_spec(c),
{
    if is_upper(c) {
        ((c as u8) + 32) as char
    } else {
        c
    }
}

/// The capital of an ASCII lower-case letter; any other character as it is.
pub fn to_upper(c: char) -> (r: char)
    ensures
        r == upper_spec(c),
{
    if is_lower(c) {
        ((c as u8) - 32) as char
    } else {
        c
    }
}

/// What has been written of a key in `snake_case`, and whether the
/// character read last was an ASCII letter.
pub struct SnakeState {
    pub out: Seq<char>,
    pub after_letter: bool,
}

/// Whether an underscore was written last.
pub open spec fn ends_with_underscore(out: Seq<char>) -> bool {
    out.len() > 0 && out.last() == '_'
}

/// Reading one more character of a key. A capital is written in lower case
/// after an underscore, unless an underscore was written last. A digit that
/// follows a letter is set off by an underscore, unless an underscore was
/// written last or what is written ends with `line`. Every other character
/// is written as it is.
pub open spec fn snake_step(state: SnakeState, c: char) -> SnakeState {
    if is_upper_spec(c) {
        let out = if ends_with_underscore(state.out) {
            state.out
        } else {
            state.out.push('_')
        };
        SnakeState { out: out.push(lower_spec(c)), after_letter: true }
    } else if is_digit_spec(c) {
        let out = if state.after_letter && !ends_with_underscore(state.out) && !ends_with_spec(
            state.out,
            seq!['l', 'i', 'n', 'e'],
        ) {
            state.out.push('_')
        } else {
            state.out
        };
        SnakeState { out: out.push(c), after_letter: false }
    } else {
        SnakeState { out: state.out.push(c), after_letter: is_lower_spec(c) }
    }
}

/// The state after reading all of `key`.
pub open spec fn snake_state(key: Seq<char>) -> SnakeState
    decreases key.len(),
{
    if key.len() == 0 {
        SnakeState { out: Seq::empty(), after_letter: false }
    } else {
        snake_step(snake_state(key.drop_last()), key.last())
    }
}

/// A `camelCase` key in `snake_case`.
pub open spec fn snake_case_spec(key: Seq<char>) -> Seq<char> {
    snake_state(key).out
}

/// A `snake_case` key in `camelCase`: each underscore is left out and the
/// character after it written as a capital; an underscore at the end is
/// left out.
pub open spec fn camel_case_spec(key: Seq<char>) -> Seq<char>
    decreases key.len(),
{
    if key.len() == 0 {
        Seq::empty()
    } else if key[0] == '_' {
        if key.len() == 1 {
            Seq::empty()
        } else {
            seq![upper_spec(key[1])] + camel_case_spec(key.skip(2))
        }
    } else {
        seq![key[0]] + camel_case_spec(key.drop_first())
    }
}

fn ends_with_line(out: &Vec<char>) -> (r: bool)
    ensures
        r == ends_with_spec(out@, seq!['l', 'i', 'n', 'e']),
{
    let n: usize = out.len();
    if n < 4 {
        return false;
    }
    let r = out[n - 4] == 'l' && out[n - 3] == 'i' && out[n - 2] == 'n' && out[n - 1] == 'e';
    proof {
        let tail = out@.skip(n - 4);
        let line = seq!['l', 'i', 'n', 'e'];
        assert(tail.len() == 4);
        assert(tail[0] == out@[n - 4]);
        assert(tail[1] == out@[n - 3]);
        assert(tail[2] == out@[n - 2]);
        assert(tail[3] == out@[n - 1]);
        if r {
            assert(tail =~= line);
        } else {
            assert(tail[0] != line[0] || tail[1] != line[1] || tail[2] != line[2] || tail[3]
                != line[3]);
        }
    }
    r
}

/// The characters of `key` in `snake_case`.
pub fn snake_case_chars(key: &Vec<char>) -> (out: Vec<char>)
    ensures
        out@ == snake_case_spec(key@),
{
    let mut out: Vec<char> = Vec::new();
    let mut after_letter: bool = false;
    let mut i: usize = 0;
    proof {
        assert(key@.take(0) =~= Seq::<char>::empty());
    }
    while i < key.len()
        invariant
            i <= key@.len(),
            snake_state(key@.take(i as int)) == (SnakeState { out: out@, after_letter }),
        decreases key@.len() - i,
    {
        let c = key[i];
        proof {
            assert(key@.take(i + 1).drop_last() =~= key@.take(i as int));
        }
        let underscore_last = out.len() > 0 && out[out.len() - 1] == '_';
        if is_upper(c) {
            if !underscore_last {
                out.push('_');
            }
            out.push(to_lower(c));
            after_letter = true;
        } else if is_digit(c) {
            if after_letter && !underscore_last && !ends_with_line(&out) {
                out.push('_');
            }
            out.push(c);
            after_letter = false;
        } else {
            out.push(c);
            after_letter = is_lower(c);
        }
        i += 1;
    }
    proof {
        assert(key@.take(key@.len() as int) =~= key@);
    }
    out
}

/// The characters of `key` in `camelCase`.
pub fn camel_case_chars(key: &Vec<char>) -> (out: Vec<char>)
    ensures
        out@ == camel_case_spec(key@),
{
    let n: usize = key.len();
    let mut out: Vec<char> = Vec::new();
    let mut i: usize = 0;
    proof {
        assert(key@.skip(0) =~= key@);
    }
    while i < n
        invariant
            n == key@.len(),
            i <= n,
            out@ + camel_case_spec(key@.skip(i as int)) == camel_case_spec(key@),
        decreases n - i,
    {
        let c = key[i];
        let ghost rest = key@.skip(i as int);
        proof {
            assert(rest[0] == c);
        }
        if c == '_' {
            if i + 1 < n {
                proof {
                    assert(rest[1] == key@[i + 1]);
                    assert(rest.skip(2) =~= key@.skip(i + 2));
                    assert(out@.push(upper_spec(key@[i + 1])) + camel_case_spec(key@.skip(i + 2))
                        =~= out@ + camel_case_spec(rest));
                }
                out.push(to_upper(key[i + 1]));
                i += 2;
            } else {
                proof {
                    assert(key@.skip(i + 1) =~= Seq::<char>::empty());
                    assert(out@ + camel_case_spec(key@.skip(i + 1)) =~= out@ + camel_case_spec(
                        rest,
                    ));
                }
                i += 1;
            }
        } else {
            proof {
                assert(rest.drop_first() =~= key@.skip(i + 1));
                assert(out@.push(c) + camel_case_spec(key@.skip(i + 1)) =~= out@
                    + camel_case_spec(rest));
            }
            out.push(c);
            i += 1;
        }
    }
    proof {
        assert(key@.skip(n as int) =~= Seq::<char>::empty());
        assert(out@ + Seq::<char>::empty() =~= out@);
    }
    out
}

/// The key `key` in `snake_case`.
pub fn to_snake_case_key(key: &str) -> (out: String)
    ensures
        out@ == snake_case_spec(key@),
{
    let chars = chars_of(key);
    let out = snake_case_chars(&chars);
    string_of(&out)
}

/// The key `key` in `camelCase`.
pub fn to_camel_case_key(key: &str) -> (out: String)
    ensures
        out@ == camel_case_spec(key@),
{
    let chars = chars_of(key);
    let out = camel_case_chars(&chars);
    string_of(&out)
}

} // verus!
