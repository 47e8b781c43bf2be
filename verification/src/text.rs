//! Character-level operations on names and paths.

use vstd::prelude::*;

verus! {

/// Whether `c` is one of the decimal digits `0` to `9`.
pub open spec fn is_digit(c: char) -> bool {
    '0' <= c <= '9'
}

/// Value of the decimal digit `c`.
pub open spec fn digit_of(c: char) -> nat
    recommends
        is_digit(c),
{
    (c as int - '0' as int) as nat
}

/// Whether every character of `s` is a decimal digit.
pub open spec fn all_digits(s: Seq<char>) -> bool {
    forall|i: int| 0 <= i < s.len() ==> is_digit(#[trigger] s[i])
}

/// The number that the digits of `s` write in base ten; 0 for no digits.
pub open spec fn decimal_value(s: Seq<char>) -> nat
    decreases s.len(),
{
    if s.len() == 0 {
        0
    } else {
        10 * decimal_value(s.drop_last()) + digit_of(s.last())
    }
}

/// `s` without one leading plus sign, if it has one.
pub open spec fn unsigned_part(s: Seq<char>) -> Seq<char> {
    if s.len() > 0 && s[0] == '+' {
        s.drop_first()
    } else {
        s
    }
}

/// Whether `s` writes a number: an optional plus sign, then one or more
/// decimal digits and nothing else.
pub open spec fn is_numeric(s: Seq<char>) -> bool {
    unsigned_part(s).len() > 0 && all_digits(unsigned_part(s))
}

/// The number written by `s`, where `s` is numeric and the number fits in
/// 32 bits.
pub open spec fn parse_unsigned(s: Seq<char>) -> Option<u32> {
    if is_numeric(s) && decimal_value(unsigned_part(s)) <= u32::MAX {
        Some(decimal_value(unsigned_part(s)) as u32)
    } else {
        None
    }
}

/// `s` with every `.` removed.
pub open spec fn without_dots(s: Seq<char>) -> Seq<char>
    decreases s.len(),
{
    if s.len() == 0 {
        s
    } else if s.last() == '.' {
        without_dots(s.drop_last())
    } else {
        without_dots(s.drop_last()).push(s.last())
    }
}

/// `s` with every occurrence of `token` replaced by `with`, the occurrences
/// taken from left to right without overlap.
pub open spec fn replace_all(s: Seq<char>, token: Seq<char>, with: Seq<char>) -> Seq<char>
    recommends
        token.len() > 0,
    decreases s.len(),
{
    if token.len() == 0 || s.len() < token.len() {
        s
    } else if token.is_prefix_of(s) {
        with + replace_all(s.skip(token.len() as int), token, with)
    } else {
        seq![s[0]] + replace_all(s.skip(1), token, with)
    }
}

/// Where the component that ends `p` starts: just behind the last `/`, or at
/// 0 where `p` holds none.
pub open spec fn component_start(p: Seq<char>) -> int
    decreases p.len(),
{
    if p.len() == 0 || p.last() == '/' {
        p.len() as int
    } else {
        component_start(p.drop_last())
    }
}

/// The final component of the path `p`: the last run of characters between
/// separators that is not `.`. Empty runs and `.` are passed over; there is
/// no final component where none is left or where the last one is `..`.
/// (A run that is `.` starts inside the path, so the bound asked of `start`
/// always holds; it is there to show that the definition ends.)
pub open spec fn final_component(p: Seq<char>) -> Option<Seq<char>>
    decreases p.len(),
{
    if p.len() == 0 {
        None
    } else if p.last() == '/' {
        final_component(p.drop_last())
    } else {
        let start = component_start(p);
        let name = p.skip(start);
        if name == seq!['.'] {
            if 0 <= start < p.len() {
                final_component(p.take(start))
            } else {
                None
            }
        } else if name == seq!['.', '.'] {
            None
        } else {
            Some(name)
        }
    }
}

/// The number written by the digits of a prefix never exceeds that of the
/// whole.
pub proof fn lemma_decimal_value_monotonic(s: Seq<char>, n: int)
    requires
        0 <= n <= s.len(),
    ensures
        decimal_value(s.take(n)) <= decimal_value(s),
    decreases s.len() - n,
{
    if n == s.len() {
        assert(s.take(n) == s);
    } else {
        lemma_decimal_value_monotonic(s.drop_last(), n);
        assert(s.drop_last().take(n) == s.take(n));
    }
}

/// The start of the last component lies inside the path, no separator
/// follows it, and a separator stands just before it unless it is 0.
pub proof fn lemma_component_start(p: Seq<char>)
    ensures
        0 <= component_start(p) <= p.len(),
        p.len() > 0 && p.last() != '/' ==> component_start(p) < p.len(),
        forall|i: int| component_start(p) <= i < p.len() ==> p[i] != '/',
        component_start(p) > 0 ==> p[component_start(p) - 1] == '/',
    decreases p.len(),
{
    if p.len() == 0 || p.last() == '/' {
    } else {
        let q = p.drop_last();
        lemma_component_start(q);
        assert forall|i: int| component_start(p) <= i < p.len() implies p[i] != '/' by {
            if i < q.len() {
                assert(q[i] == p[i]);
            }
        }
        if component_start(p) > 0 {
            assert(q[component_start(q) - 1] == p[component_start(p) - 1]);
        }
    }
}

/// Whether `name` stands in `p` as a whole component: between separators or
/// the ends of `p`, from position `start` on.
pub open spec fn is_component_at(p: Seq<char>, start: int, name: Seq<char>) -> bool {
    &&& 0 <= start
    &&& start + name.len() <= p.len()
    &&& p.subrange(start, start + name.len()) == name
    &&& start == 0 || p[start - 1] == '/'
    &&& start + name.len() == p.len() || p[start + name.len()] == '/'
}

/// A final component is a component of the path: it is not empty, holds no
/// separator, is neither `.` nor `..`, and stands in the path between
/// separators or the ends of the path.
pub proof fn lemma_final_component(p: Seq<char>)
    ensures
        final_component(p) matches Some(name) ==> {
            &&& name.len() > 0
            &&& forall|k: int| 0 <= k < name.len() ==> name[k] != '/'
            &&& name != seq!['.']
            &&& name != seq!['.', '.']
            &&& exists|start: int| is_component_at(p, start, name)
        },
    decreases p.len(),
{
    if p.len() == 0 {
    } else if p.last() == '/' {
        let q = p.drop_last();
        lemma_final_component(q);
        if let Some(name) = final_component(q) {
            let start = choose|start: int| is_component_at(q, start, name);
            assert(q.subrange(start, start + name.len()) == p.subrange(start, start + name.len()));
            assert(is_component_at(p, start, name));
        }
    } else {
        let start = component_start(p);
        let name = p.skip(start);
        lemma_component_start(p);
        if name == seq!['.'] {
            let q = p.take(start);
            lemma_final_component(q);
            if let Some(found) = final_component(q) {
                let at = choose|at: int| is_component_at(q, at, found);
                assert(q.subrange(at, at + found.len()) == p.subrange(at, at + found.len()));
                assert(q.last() == '/');
                assert(found[found.len() - 1] == q[at + found.len() - 1]);
                assert(is_component_at(p, at, found));
            }
        } else if name == seq!['.', '.'] {
        } else {
            assert(p.subrange(start, start + name.len()) == name);
            assert(is_component_at(p, start, name));
            assert forall|k: int| 0 <= k < name.len() implies name[k] != '/' by {
                assert(name[k] == p[start + k]);
            }
        }
    }
}

/// One step of [`replace_all`] on a text that is not empty: an occurrence
/// at the start is replaced whole, any other first character is kept.
pub proof fn lemma_replace_all_step(s: Seq<char>, token: Seq<char>, with: Seq<char>)
    requires
        token.len() > 0,
        s.len() > 0,
    ensures
        token.is_prefix_of(s) ==> replace_all(s, token, with) == with + replace_all(
            s.skip(token.len() as int),
            token,
            with,
        ),
        !token.is_prefix_of(s) ==> replace_all(s, token, with) == seq![s[0]] + replace_all(
            s.skip(1),
            token,
            with,
        ),
{
    if s.len() < token.len() {
        assert(replace_all(s.skip(1), token, with) == s.skip(1));
        assert(s == seq![s[0]] + s.skip(1));
    }
}

/// The characters of an optional string.
pub open spec fn opt_chars(o: Option<String>) -> Option<Seq<char>> {
    match o {
        Some(s) => Some(s@),
        None => None,
    }
}

/// The characters of `s`, in order.
pub fn chars_of(s: &str) -> (v: Vec<char>)
    ensures
        v@ == s@,
{
    let mut v: Vec<char> = Vec::new();
    for c in it: s.chars()
        invariant
            it.seq() == s@,
            v@ == it.seq().take(it.index()),
    {
        v.push(c);
    }
    v
}

/// The last character of `s`, if it has one.
pub fn last_char(s: &str) -> (last: Option<char>)
    ensures
        s@.len() == 0 ==> last is None,
        s@.len() > 0 ==> last == Some(s@.last()),
{
    let chars = chars_of(s);
    if chars.len() == 0 {
        None
    } else {
        Some(chars[chars.len() - 1])
    }
}

/// Whether `prefix` stands in `s` at position `from`.
pub(crate) fn starts_with_at(s: &Vec<char>, from: usize, prefix: &Vec<char>) -> (b: bool)
    requires
        from <= s.len(),
    ensures
        b == prefix@.is_prefix_of(s@.skip(from as int)),
{
    if prefix.len() > s.len() - from {
        return false;
    }
    let ghost rest = s@.skip(from as int);
    let mut i: usize = 0;
    while i < prefix.len()
        invariant
            i <= prefix.len() <= s.len() - from,
            rest == s@.skip(from as int),
            forall|j: int| 0 <= j < i ==> rest[j] == prefix@[j],
        decreases prefix.len() - i,
    {
        if s[from + i] != prefix[i] {
            assert(rest.subrange(0, prefix@.len() as int)[i as int] != prefix@[i as int]);
            return false;
        }
        i += 1;
    }
    assert(rest.subrange(0, prefix@.len() as int) =~= prefix@);
    true
}

/// Whether `s` begins with `prefix`.
pub fn starts_with(s: &Vec<char>, prefix: &Vec<char>) -> (b: bool)
    ensures
        b == prefix@.is_prefix_of(s@),
{
    assert(s@.skip(0) == s@);
    starts_with_at(s, 0, prefix)
}

/// The characters of `s` from position `from` on, with every `.` left out.
pub(crate) fn strip_dots(s: &Vec<char>, from: usize) -> (r: Vec<char>)
    requires
        from <= s.len(),
    ensures
        r@ == without_dots(s@.skip(from as int)),
{
    let mut r: Vec<char> = Vec::new();
    let mut i: usize = from;
    assert(s@.subrange(from as int, from as int).len() == 0);
    while i < s.len()
        invariant
            from <= i <= s.len(),
            r@ == without_dots(s@.subrange(from as int, i as int)),
        decreases s.len() - i,
    {
        let c = s[i];
        assert(s@.subrange(from as int, i + 1).drop_last() == s@.subrange(from as int, i as int));
        if c != '.' {
            r.push(c);
        }
        i += 1;
    }
    assert(s@.subrange(from as int, s.len() as int) == s@.skip(from as int));
    r
}

/// Reads `s` as an unsigned number of 32 bits: an optional plus sign, then
/// one or more decimal digits. Anything else, and a number that does not
/// fit, gives `None`.
pub fn parse_u32(s: &Vec<char>) -> (r: Option<u32>)
    ensures
        r == parse_unsigned(s@),
{
    let start: usize = if s.len() > 0 && s[0] == '+' { 1 } else { 0 };
    let ghost digits = unsigned_part(s@);
    assert(digits == s@.skip(start as int));
    if start == s.len() {
        return None;
    }
    let mut value: u32 = 0;
    let mut i: usize = start;
    assert(digits.take(0).len() == 0);
    while i < s.len()
        invariant
            start <= i <= s.len(),
            digits == s@.skip(start as int),
            digits == unsigned_part(s@),
            all_digits(digits.take(i - start)),
            value == decimal_value(digits.take(i - start)),
        decreases s.len() - i,
    {
        let c = s[i];
        let ghost next = digits.take(i - start + 1);
        assert(next.drop_last() == digits.take(i - start));
        assert(next.last() == c);
        if !('0' <= c && c <= '9') {
            assert(digits[i - start] == c);
            assert(!all_digits(digits));
            return None;
        }
        let d: u32 = c as u32 - '0' as u32;
        assert(decimal_value(next) == 10 * value + d);
        if value > (u32::MAX - d) / 10 {
            proof {
                lemma_decimal_value_monotonic(digits, i - start + 1);
            }
            assert(decimal_value(digits) > u32::MAX);
            return None;
        }
        value = value * 10 + d;
        assert forall|j: int| 0 <= j < next.len() implies is_digit(#[trigger] next[j]) by {
            if j < next.len() - 1 {
                assert(next[j] == digits.take(i - start)[j]);
            }
        }
        i += 1;
    }
    assert(digits.take(s.len() - start) == digits);
    Some(value)
}

/// Where the final component of the path `p` starts and ends, if it has one.
pub fn final_component_range(p: &Vec<char>) -> (r: Option<(usize, usize)>)
    ensures
        match r {
            Some((start, end)) => start < end <= p.len() && final_component(p@) == Some(
                p@.subrange(start as int, end as int),
            ),
            None => final_component(p@) is None,
        },
{
    let mut end: usize = p.len();
    assert(p@.take(end as int) == p@);
    while end > 0
        invariant
            end <= p.len(),
            final_component(p@) == final_component(p@.take(end as int)),
        decreases end,
    {
        let ghost head = p@.take(end as int);
        if p[end - 1] == '/' {
            assert(head.drop_last() == p@.take(end - 1));
            end -= 1;
        } else {
            let mut start: usize = end - 1;
            assert(head.drop_last() == p@.take(start as int));
            while start > 0 && p[start - 1] != '/'
                invariant
                    start < end <= p.len(),
                    head == p@.take(end as int),
                    component_start(head) == component_start(p@.take(start as int)),
                decreases start,
            {
                assert(p@.take(start as int).drop_last() == p@.take(start - 1));
                start -= 1;
            }
            assert(component_start(head) == start);
            assert(head.skip(start as int) == p@.subrange(start as int, end as int));
            assert(head.take(start as int) == p@.take(start as int));
            let ghost name = p@.subrange(start as int, end as int);
            if end - start == 1 && p[start] == '.' {
                assert(name == seq!['.']);
                end = start;
            } else if end - start == 2 && p[start] == '.' && p[start + 1] == '.' {
                assert(name == seq!['.', '.']);
                return None;
            } else {
                assert(name != seq!['.']) by {
                    if name.len() == 1 {
                        assert(name[0] != seq!['.'][0]);
                    }
                }
                assert(name != seq!['.', '.']) by {
                    if name.len() == 2 && name[0] == '.' {
                        assert(name[1] != seq!['.', '.'][1]);
                    }
                }
                return Some((start, end));
            }
        }
    }
    None
}

/// The final component of the path `path`, as [`final_component`] defines
/// it.
pub fn file_name(path: &str) -> (r: Option<String>)
    ensures
        opt_chars(r) == final_component(path@),
{
    let chars = chars_of(path);
    match final_component_range(&chars) {
        Some((start, end)) => Some(path.substring_char(start, end).to_owned()),
        None => None,
    }
}

/// `text` with every occurrence of `token` replaced by `with`, from left to
/// right and without overlap. An empty `token` occurs nowhere.
pub fn replace_token(text: &str, token: &str, with: &str) -> (r: String)
    ensures
        r@ == replace_all(text@, token@, with@),
{
    let s = chars_of(text);
    let t = chars_of(token);
    let n = s.len();
    let m = t.len();
    if m == 0 {
        return text.to_owned();
    }
    let mut out = String::new();
    let mut seg: usize = 0;
    let mut i: usize = 0;
    assert(s@.skip(0) == s@);
    assert(out@ + s@.subrange(0, 0) + s@ == s@);
    while i < n
        invariant
            seg <= i <= n,
            n == s.len(),
            m == t.len(),
            m > 0,
            s@ == text@,
            t@ == token@,
            replace_all(text@, token@, with@) == out@ + s@.subrange(seg as int, i as int)
                + replace_all(s@.skip(i as int), token@, with@),
        decreases n - i,
    {
        let ghost rest = s@.skip(i as int);
        proof {
            lemma_replace_all_step(rest, token@, with@);
        }
        if starts_with_at(&s, i, &t) {
            let ghost before = out@;
            let ghost kept = s@.subrange(seg as int, i as int);
            out.append(text.substring_char(seg, i));
            out.append(with);
            assert(out@ == before + kept + with@);
            assert(rest.skip(m as int) == s@.skip(i + m));
            i += m;
            seg = i;
            assert(s@.subrange(seg as int, i as int).len() == 0);
            assert(out@ + s@.subrange(seg as int, i as int) + replace_all(
                s@.skip(i as int),
                token@,
                with@,
            ) == before + kept + (with@ + replace_all(s@.skip(i as int), token@, with@)));
        } else {
            assert(rest.skip(1) == s@.skip(i + 1));
            assert(s@.subrange(seg as int, i as int) + seq![rest[0]] == s@.subrange(
                seg as int,
                i + 1,
            ));
            i += 1;
        }
    }
    out.append(text.substring_char(seg, n));
    assert(replace_all(s@.skip(n as int), token@, with@).len() == 0);
    out
}

} // verus!
