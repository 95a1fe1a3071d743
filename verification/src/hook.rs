//! The control-plane hook: how its URL template is rewritten for the call
//! before the server is stopped and for the call after the world is restored.
//!
//! A template holds the placeholder `{}` for the command and may hold
//! fragments of the form `&msg=<value>`, each reaching up to the next `&` or
//! the end of the text.

use vstd::prelude::*;
use crate::text::{chars_of, find_char, index_of};

verus! {

/// `s` with every placeholder `{}` replaced by `word`, from left to right.
pub open spec fn substitute(s: Seq<char>, word: Seq<char>) -> Seq<char>
    decreases s.len(),
{
    if s.len() == 0 {
        s
    } else if s.len() >= 2 && s[0] == '{' && s[1] == '}' {
        word + substitute(s.skip(2), word)
    } else {
        seq![s[0]] + substitute(s.drop_first(), word)
    }
}

/// Whether a fragment `&msg=` begins at position `i` of `s`.
pub open spec fn msg_at(s: Seq<char>, i: int) -> bool {
    0 <= i && i + 5 <= s.len() && s[i] == '&' && s[i + 1] == 'm' && s[i + 2] == 's' && s[i + 3]
        == 'g' && s[i + 4] == '='
}

/// The position of the first fragment at or after `from`, or the length of
/// `s` where there is none.
pub open spec fn first_msg_from(s: Seq<char>, from: int) -> int
    decreases s.len() - from,
{
    if from < 0 || from + 5 > s.len() {
        s.len() as int
    } else if msg_at(s, from) {
        from
    } else {
        first_msg_from(s, from + 1)
    }
}

/// The position of the last fragment at or before `upto`, or `-1` where
/// there is none.
pub open spec fn last_msg_upto(s: Seq<char>, upto: int) -> int
    decreases upto + 1,
{
    if upto < 0 {
        -1
    } else if msg_at(s, upto) {
        upto
    } else {
        last_msg_upto(s, upto - 1)
    }
}

/// Where the fragment that begins at `i` ends: at the next `&` after its
/// `&msg=`, or at the end of `s`.
pub open spec fn fragment_end(s: Seq<char>, i: int) -> int {
    i + 5 + index_of(s.skip(i + 5), '&')
}

/// `s` without the piece `[from, to)`.
pub open spec fn without(s: Seq<char>, from: int, to: int) -> Seq<char> {
    s.take(from) + s.skip(to)
}

/// `s` without its last fragment, if it has one.
pub open spec fn drop_last_msg(s: Seq<char>) -> Seq<char> {
    let i = last_msg_upto(s, s.len() - 1);
    if i >= 0 {
        without(s, i, fragment_end(s, i))
    } else {
        s
    }
}

/// `s` without its first fragment, if it has more than one.
pub open spec fn drop_first_of_many_msgs(s: Seq<char>) -> Seq<char> {
    let i = first_msg_from(s, 0);
    if i < s.len() && first_msg_from(s, i + 5) < s.len() {
        without(s, i, fragment_end(s, i))
    } else {
        s
    }
}

/// `s` without one trailing `&`.
pub open spec fn drop_trailing_amp(s: Seq<char>) -> Seq<char> {
    if s.len() > 0 && s.last() == '&' {
        s.drop_last()
    } else {
        s
    }
}

/// The URL of the call before the server is stopped: the command is `stop`,
/// and the last message fragment, meant for the later call, is left out.
pub open spec fn stop_rewrite(template: Seq<char>) -> Seq<char> {
    drop_last_msg(substitute(template, "stop"@))
}

/// The URL of the call after the world is restored: the command is `start`;
/// of several message fragments the first is left out, and so is one
/// trailing `&`.
pub open spec fn start_rewrite(template: Seq<char>) -> Seq<char> {
    drop_trailing_amp(drop_first_of_many_msgs(substitute(template, "start"@)))
}

/// The first fragment at or after `from` is a fragment, and none stands
/// between `from` and it.
pub proof fn lemma_first_msg_from(s: Seq<char>, from: int)
    requires
        0 <= from,
    ensures
        from <= first_msg_from(s, from) || first_msg_from(s, from) == s.len(),
        first_msg_from(s, from) <= s.len(),
        first_msg_from(s, from) < s.len() ==> msg_at(s, first_msg_from(s, from)),
        forall|j: int| from <= j < first_msg_from(s, from) ==> !msg_at(s, j),
    decreases s.len() - from,
{
    if from + 5 > s.len() {
    } else if msg_at(s, from) {
    } else {
        lemma_first_msg_from(s, from + 1);
    }
}

/// The last fragment at or before `upto` is a fragment, and none stands
/// between it and `upto`.
pub proof fn lemma_last_msg_upto(s: Seq<char>, upto: int)
    ensures
        -1 <= last_msg_upto(s, upto),
        upto >= -1 ==> last_msg_upto(s, upto) <= upto,
        last_msg_upto(s, upto) >= 0 ==> msg_at(s, last_msg_upto(s, upto)),
        forall|j: int| last_msg_upto(s, upto) < j <= upto ==> !msg_at(s, j),
    decreases upto + 1,
{
    if upto < 0 {
    } else if msg_at(s, upto) {
    } else {
        lemma_last_msg_upto(s, upto - 1);
    }
}

fn is_msg_at(v: &Vec<char>, i: usize) -> (b: bool)
    requires
        i <= v.len(),
    ensures
        b == msg_at(v@, i as int),
{
    v.len() - i >= 5 && v[i] == '&' && v[i + 1] == 'm' && v[i + 2] == 's' && v[i + 3] == 'g' && v[i
        + 4] == '='
}

/// Finds the first fragment at or after `from`; returns the length of `v`
/// where there is none.
fn find_first_msg(v: &Vec<char>, from: usize) -> (i: usize)
    requires
        from <= v.len(),
    ensures
        i == first_msg_from(v@, from as int),
        i <= v.len(),
{
    let mut i: usize = from;
    while i < v.len()
        invariant
            from <= i <= v.len(),
            first_msg_from(v@, from as int) == first_msg_from(v@, i as int),
        decreases v.len() - i,
    {
        if is_msg_at(v, i) {
            return i;
        }
        i += 1;
    }
    v.len()
}

/// Finds the last fragment; returns `None` where there is none.
fn find_last_msg(v: &Vec<char>) -> (r: Option<usize>)
    ensures
        match r {
            Some(i) => i == last_msg_upto(v@, v@.len() - 1),
            None => last_msg_upto(v@, v@.len() - 1) == -1,
        },
{
    let mut i: usize = v.len();
    while i > 0
        invariant
            i <= v.len(),
            last_msg_upto(v@, v@.len() - 1) == last_msg_upto(v@, i - 1),
        decreases i,
    {
        i -= 1;
        if is_msg_at(v, i) {
            return Some(i);
        }
    }
    None
}

/// Replaces every placeholder of `template` by `word`.
fn fill_placeholder(template: &str, word: &str) -> (url: String)
    ensures
        url@ == substitute(template@, word@),
{
    let chars = chars_of(template);
    let n: usize = chars.len();
    let mut out = String::new();
    let mut i: usize = 0;
    assert(chars@.skip(0) =~= chars@);
    assert(out@ + substitute(chars@, word@) =~= substitute(chars@, word@));
    while i < n
        invariant
            i <= n,
            n == chars.len(),
            chars@ == template@,
            out@ + substitute(chars@.skip(i as int), word@) == substitute(template@, word@),
        decreases n - i,
    {
        let ghost rest = chars@.skip(i as int);
        let ghost before = out@;
        if n - i >= 2 && chars[i] == '{' && chars[i + 1] == '}' {
            out.append(word);
            assert(rest.skip(2) =~= chars@.skip(i + 2));
            assert((before + word@) + substitute(rest.skip(2), word@) =~= before + (word@
                + substitute(rest.skip(2), word@)));
            i += 2;
        } else {
            out.append(template.substring_char(i, i + 1));
            assert(chars@.subrange(i as int, i + 1) =~= seq![rest[0]]);
            assert(rest.drop_first() =~= chars@.skip(i + 1));
            assert((before + seq![rest[0]]) + substitute(rest.drop_first(), word@) =~= before + (
                seq![rest[0]] + substitute(rest.drop_first(), word@)));
            i += 1;
        }
    }
    assert(chars@.skip(n as int).len() == 0);
    assert(out@ + substitute(chars@.skip(n as int), word@) =~= out@);
    out
}

/// Cuts the piece `[from, to)` out of `s`.
fn cut(s: &str, chars: &Vec<char>, from: usize, to: usize) -> (r: String)
    requires
        chars@ == s@,
        from <= to <= chars.len(),
    ensures
        r@ == without(s@, from as int, to as int),
{
    let mut r = s.substring_char(0, from).to_owned();
    r.append(s.substring_char(to, chars.len()));
    assert(s@.subrange(0, from as int) =~= s@.take(from as int));
    assert(s@.subrange(to as int, chars.len() as int) =~= s@.skip(to as int));
    r
}

/// The URL for the call before the server is stopped.
pub fn stop_url(template: &str) -> (url: String)
    ensures
        url@ == stop_rewrite(template@),
{
    let filled = fill_placeholder(template, "stop");
    let chars = chars_of(filled.as_str());
    match find_last_msg(&chars) {
        Some(i) => {
            proof {
                lemma_last_msg_upto(chars@, chars@.len() - 1);
            }
            let end = find_char(&chars, '&', i + 5, chars.len());
            assert(chars@.subrange(i + 5, chars.len() as int) =~= chars@.skip(i + 5));
            cut(filled.as_str(), &chars, i, end)
        },
        None => filled,
    }
}

/// The URL for the call after the world is restored.
pub fn start_url(template: &str) -> (url: String)
    ensures
        url@ == start_rewrite(template@),
{
    let filled = fill_placeholder(template, "start");
    let chars = chars_of(filled.as_str());
    let n: usize = chars.len();
    let first = find_first_msg(&chars, 0);
    proof {
        lemma_first_msg_from(chars@, 0);
    }
    let many: bool = first < n && find_first_msg(&chars, first + 5) < n;
    let trimmed_url = if many {
        let end = find_char(&chars, '&', first + 5, n);
        assert(chars@.subrange(first + 5, n as int) =~= chars@.skip(first + 5));
        cut(filled.as_str(), &chars, first, end)
    } else {
        filled
    };
    let out = chars_of(trimmed_url.as_str());
    if out.len() > 0 && out[out.len() - 1] == '&' {
        let r = trimmed_url.as_str().substring_char(0, out.len() - 1).to_owned();
        assert(out@.subrange(0, out.len() - 1) =~= out@.drop_last());
        r
    } else {
        trimmed_url
    }
}

/// The character of a decimal digit.
pub open spec fn digit_char(d: nat) -> char {
    if d == 0 {
        '0'
    } else if d == 1 {
        '1'
    } else if d == 2 {
        '2'
    } else if d == 3 {
        '3'
    } else if d == 4 {
        '4'
    } else if d == 5 {
        '5'
    } else if d == 6 {
        '6'
    } else if d == 7 {
        '7'
    } else if d == 8 {
        '8'
    } else {
        '9'
    }
}

/// A number in decimal digits, without leading zeros.
pub open spec fn decimal_text(n: nat) -> Seq<char>
    decreases n,
{
    if n < 10 {
        seq![digit_char(n)]
    } else {
        decimal_text(n / 10).push(digit_char(n % 10))
    }
}

/// What is reported of a call of the hook: the status code in decimal
/// digits, or `unknown` where the call brought no response.
pub open spec fn status_report(code: Option<u16>) -> Seq<char> {
    match code {
        Some(c) => decimal_text(c as nat),
        None => "unknown"@,
    }
}

fn digit_text(d: u16) -> (text: &'static str)
    requires
        d < 10,
    ensures
        text@ == seq![digit_char(d as nat)],
{
    proof {
        reveal_strlit("0");
        reveal_strlit("1");
        reveal_strlit("2");
        reveal_strlit("3");
        reveal_strlit("4");
        reveal_strlit("5");
        reveal_strlit("6");
        reveal_strlit("7");
        reveal_strlit("8");
        reveal_strlit("9");
    }
    let text = if d == 0 {
        "0"
    } else if d == 1 {
        "1"
    } else if d == 2 {
        "2"
    } else if d == 3 {
        "3"
    } else if d == 4 {
        "4"
    } else if d == 5 {
        "5"
    } else if d == 6 {
        "6"
    } else if d == 7 {
        "7"
    } else if d == 8 {
        "8"
    } else {
        "9"
    };
    assert(text@ =~= seq![digit_char(d as nat)]);
    text
}

fn append_decimal(out: &mut String, n: u16)
    ensures
        final(out)@ == old(out)@ + decimal_text(n as nat),
    decreases n,
{
    if n >= 10 {
        append_decimal(out, n / 10);
    }
    out.append(digit_text(n % 10));
    proof {
        if n >= 10 {
            assert(old(out)@ + decimal_text(n as nat) =~= (old(out)@ + decimal_text(
                (n / 10) as nat,
            )) + seq![digit_char((n % 10) as nat)]);
        }
    }
}

/// Renders the outcome of a call of the hook.
pub fn status_text(code: Option<u16>) -> (text: String)
    ensures
        text@ == status_report(code),
{
    match code {
        Some(c) => {
            let mut text = String::new();
            append_decimal(&mut text, c);
            assert(Seq::<char>::empty() + decimal_text(c as nat) =~= decimal_text(c as nat));
            text
        },
        None => String::from_str("unknown"),
    }
}

/// The value of the `Authorization` header that carries a bearer token.
pub fn bearer_value(token: &str) -> (value: String)
    ensures
        value@ == "Bearer "@ + token@,
{
    let mut value = String::from_str("Bearer ");
    value.append(token);
    value
}

} // verus!
