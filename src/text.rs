//! Character-level helpers shared by the parsers and formatters: decoding a
//! `&str` into its characters, building strings, decimal numbers, splitting
//! on a delimiter and joining back.
use vstd::prelude::*;
use vstd::std_specs::iter::IteratorSpec;

verus! {


/// Relies on `String::push`: appends one character at the end.
#[verifier::external_body]
pub(crate) fn push_char(s: &mut String, c: char)
    ensures
        final(s)@ == old(s)@.push(c),
{
    s.push(c);
}

/// The characters of `s`, in order.
pub fn chars_of(s: &str) -> (r: Vec<char>)
    ensures
        r@ == s@,
{
    let mut it = s.chars();
    let mut out: Vec<char> = Vec::new();
    loop
        invariant
            out@ + it.remaining() == s@,
            it.obeys_prophetic_iter_laws(),
            out.len() <= s@.len(),
        ensures
            out@ == s@,
        decreases s@.len() - out.len(),
    {
        match it.next() {
            Some(c) => {
                out.push(c);
            },
            None => {
                assert(out@ =~= s@);
                break ;
            },
        }
    }
    out
}

/// Appends `t` to `s`.
pub fn push_str_of(s: &mut String, t: &String)
    ensures
        final(s)@ == old(s)@ + t@,
{
    s.append(t.as_str());
}

/// A string holding the characters `v[lo..hi]`.
pub fn string_of(v: &Vec<char>, lo: usize, hi: usize) -> (r: String)
    requires
        lo <= hi <= v@.len(),
    ensures
        r@ == v@.subrange(lo as int, hi as int),
{
    let mut r = String::new();
    let mut i = lo;
    while i < hi
        invariant
            lo <= i <= hi <= v@.len(),
            r@ == v@.subrange(lo as int, i as int),
        decreases hi - i,
    {
        push_char(&mut r, v[i]);
        assert(v@.subrange(lo as int, i + 1) == v@.subrange(lo as int, i as int).push(v@[i as int]));
        i = i + 1;
    }
    r
}

/// An owned copy of `s`.
pub fn owned(s: &str) -> (r: String)
    ensures
        r@ == s@,
{
    s.to_owned()
}

pub open spec fn is_digit(c: char) -> bool {
    '0' <= c <= '9'
}

pub open spec fn digit_value(c: char) -> nat {
    (c as u32 - '0' as u32) as nat
}

pub open spec fn digit_char(d: nat) -> char {
    if d == 0 {
        '0'
    } else if d == 1 {
        '1'
    } else if d == 2 {
        '2'
    } else if d == 3 {
        '3'
    } else if d == 4 {
        '4'
    } else if d == 5 {
        '5'
    } else if d == 6 {
        '6'
    } else if d == 7 {
        '7'
    } else if d == 8 {
        '8'
    } else {
        '9'
    }
}

pub(crate) fn digit_to_char(d: u64) -> (c: char)
    requires
        d < 10,
    ensures
        c == digit_char(d as nat),
{
    if d == 0 {
        '0'
    } else if d == 1 {
        '1'
    } else if d == 2 {
        '2'
    } else if d == 3 {
        '3'
    } else if d == 4 {
        '4'
    } else if d == 5 {
        '5'
    } else if d == 6 {
        '6'
    } else if d == 7 {
        '7'
    } else if d == 8 {
        '8'
    } else {
        '9'
    }
}

pub open spec fn all_digits(s: Seq<char>) -> bool {
    forall|i: int| 0 <= i < s.len() ==> is_digit(#[trigger] s[i])
}

/// The number that a sequence of decimal digits denotes; leading zeros are
/// allowed.
pub open spec fn digits_value(s: Seq<char>) -> nat
    decreases s.len(),
{
    if s.len() == 0 {
        0
    } else {
        digits_value(s.drop_last()) * 10 + digit_value(s.last())
    }
}

/// The digits of an unsigned number written in std's grammar: an optional
/// `+`, then at least one decimal digit.
pub open spec fn unsigned_digits(s: Seq<char>) -> Option<Seq<char>> {
    let body = if s.len() > 0 && s[0] == '+' {
        s.skip(1)
    } else {
        s
    };
    if body.len() > 0 && all_digits(body) {
        Some(body)
    } else {
        None
    }
}

/// `s` read as an unsigned number no larger than `max`.
pub open spec fn parse_unsigned(s: Seq<char>, max: nat) -> Option<nat> {
    match unsigned_digits(s) {
        Some(b) => if digits_value(b) <= max {
            Some(digits_value(b))
        } else {
            None
        },
        None => None,
    }
}

/// The shortest decimal writing of `n`.
pub open spec fn decimal(n: nat) -> Seq<char>
    decreases n,
{
    if n < 10 {
        seq![digit_char(n)]
    } else {
        decimal(n / 10).push(digit_char(n % 10))
    }
}

pub proof fn lemma_digits_value_take(s: Seq<char>, i: int)
    requires
        0 <= i < s.len(),
    ensures
        digits_value(s.take(i + 1)) == digits_value(s.take(i)) * 10 + digit_value(s[i]),
{
    assert(s.take(i + 1).drop_last() == s.take(i));
}

pub proof fn lemma_digits_value_monotone(s: Seq<char>, i: int)
    requires
        0 <= i <= s.len(),
        all_digits(s),
    ensures
        digits_value(s.take(i)) <= digits_value(s),
    decreases s.len() - i,
{
    if i < s.len() {
        lemma_digits_value_take(s, i);
        lemma_digits_value_monotone(s, i + 1);
    } else {
        assert(s.take(i) == s);
    }
}

pub proof fn lemma_digit_char(d: nat)
    requires
        d < 10,
    ensures
        is_digit(digit_char(d)),
        digit_value(digit_char(d)) == d,
        digit_char(d) != '+',
{
}

pub proof fn lemma_decimal(n: nat)
    ensures
        all_digits(decimal(n)),
        digits_value(decimal(n)) == n,
        decimal(n).len() >= 1,
        decimal(n)[0] != '+',
    decreases n,
{
    lemma_digit_char(n % 10);
    if n >= 10 {
        lemma_decimal(n / 10);
        let d = decimal(n / 10);
        assert(decimal(n).drop_last() == d);
        assert(decimal(n)[0] == d[0]);
        assert(decimal(n).last() == digit_char(n % 10));
        assert(n == (n / 10) * 10 + n % 10);
        assert(digits_value(decimal(n)) == digits_value(d) * 10 + digit_value(digit_char(n % 10)));
    } else {
        assert(decimal(n).drop_last() =~= Seq::<char>::empty());
        assert(digits_value(Seq::<char>::empty()) == 0);
        assert(decimal(n).last() == digit_char(n));
    }
}

/// Whether every character of `v` is a decimal digit.
pub fn all_digit_chars(v: &Vec<char>) -> (r: bool)
    ensures
        r == all_digits(v@),
{
    let mut i: usize = 0;
    while i < v.len()
        invariant
            i <= v@.len(),
            forall|j: int| 0 <= j < i ==> is_digit(#[trigger] v@[j]),
        decreases v@.len() - i,
    {
        if !('0' <= v[i] && v[i] <= '9') {
            return false;
        }
        i = i + 1;
    }
    true
}

/// Reads a `usize` as std does: an optional `+`, then decimal digits.
pub fn parse_usize(s: &str) -> (r: Option<usize>)
    ensures
        r == (match parse_unsigned(s@, usize::MAX as nat) {
            Some(v) => Some(v as usize),
            None => None,
        }),
{
    match parse_u64(s) {
        Some(v) => {
            if v as u128 <= usize::MAX as u128 {
                Some(v as usize)
            } else {
                None
            }
        },
        None => {
            proof {
                if parse_unsigned(s@, usize::MAX as nat) is Some {
                    assert(usize::MAX as nat <= u64::MAX as nat);
                }
            }
            None
        },
    }
}

/// Reads a `u64` as std does: an optional `+`, then decimal digits.
pub fn parse_u64(s: &str) -> (r: Option<u64>)
    ensures
        r == (match parse_unsigned(s@, u64::MAX as nat) {
            Some(v) => Some(v as u64),
            None => None,
        }),
{
    let cs = chars_of(s);
    let n = cs.len();
    let start: usize = if n > 0 && cs[0] == '+' {
        1
    } else {
        0
    };
    let ghost body = cs@.subrange(start as int, n as int);
    if start == 1 {
        assert(body =~= s@.skip(1));
    } else {
        assert(body =~= s@);
    }
    assert(unsigned_digits(s@) == if body.len() > 0 && all_digits(body) {
        Some(body)
    } else {
        None::<Seq<char>>
    });
    if start == n {
        return None;
    }
    let mut v: u64 = 0;
    let mut i = start;
    while i < n
        invariant
            start <= i <= n == cs@.len(),
            cs@ == s@,
            body == cs@.subrange(start as int, n as int),
            body.len() > 0,
            unsigned_digits(s@) == if all_digits(body) {
                Some(body)
            } else {
                None::<Seq<char>>
            },
            all_digits(body.take(i - start)),
            v == digits_value(body.take(i - start)),
        decreases n - i,
    {
        let c = cs[i];
        if !('0' <= c && c <= '9') {
            assert(body[i - start] == c);
            assert(!all_digits(body));
            return None;
        }
        let d = (c as u32 - '0' as u32) as u64;
        proof {
            lemma_digits_value_take(body, i - start);
        }
        if v > (u64::MAX - d) / 10 {
            proof {
                if all_digits(body) {
                    lemma_digits_value_monotone(body, i - start + 1);
                    assert(digits_value(body) > u64::MAX);
                }
            }
            return None;
        }
        v = v * 10 + d;
        assert(all_digits(body.take(i + 1 - start))) by {
            assert forall|j: int| 0 <= j < i + 1 - start implies is_digit(
                #[trigger] body.take(i + 1 - start)[j],
            ) by {
                if j < i - start {
                    assert(body.take(i + 1 - start)[j] == body.take(i - start)[j]);
                }
            }
        }
        i = i + 1;
    }
    assert(body.take(n - start) == body);
    Some(v)
}

/// Appends the decimal writing of `n` to `s`.
pub fn push_decimal_usize(s: &mut String, n: usize)
    ensures
        final(s)@ == old(s)@ + decimal(n as nat),
    decreases n,
{
    if n >= 10 {
        push_decimal_usize(s, n / 10);
    }
    let c = digit_to_char((n % 10) as u64);
    push_char(s, c);
    assert(final(s)@ =~= old(s)@ + decimal(n as nat));
}

/// `a` followed by `b`.
pub fn concat(a: &str, b: &String) -> (r: String)
    ensures
        r@ == a@ + b@,
{
    let mut r = owned(a);
    push_str_of(&mut r, b);
    r
}

/// Appends the decimal writing of `n` to `s`.
pub fn push_decimal(s: &mut String, n: u64)
    ensures
        final(s)@ == old(s)@ + decimal(n as nat),
    decreases n,
{
    if n >= 10 {
        push_decimal(s, n / 10);
    }
    let c = digit_to_char(n % 10);
    let ghost mid = s@;
    push_char(s, c);
    if n >= 10 {
        assert(s@ =~= old(s)@ + decimal(n as nat));
    } else {
        assert(s@ =~= old(s)@ + decimal(n as nat));
    }
}

/// The views of a sequence of strings.
pub open spec fn views(v: Seq<String>) -> Seq<Seq<char>> {
    v.map_values(|x: String| x@)
}

/// The parts of `s` between occurrences of `d`, as `str::split` gives them:
/// one more part than there are occurrences.
pub open spec fn split_on(s: Seq<char>, d: char) -> Seq<Seq<char>>
    decreases s.len(),
{
    if s.len() == 0 {
        seq![Seq::empty()]
    } else {
        let parts = split_on(s.drop_last(), d);
        if s.last() == d {
            parts.push(Seq::empty())
        } else {
            parts.update(parts.len() - 1, parts.last().push(s.last()))
        }
    }
}

/// The parts written one after another with `d` between each two.
pub open spec fn join_on(parts: Seq<Seq<char>>, d: char) -> Seq<char>
    decreases parts.len(),
{
    if parts.len() == 0 {
        Seq::empty()
    } else if parts.len() == 1 {
        parts[0]
    } else {
        join_on(parts.drop_last(), d).push(d) + parts.last()
    }
}

pub proof fn lemma_split_len(s: Seq<char>, d: char)
    ensures
        split_on(s, d).len() >= 1,
    decreases s.len(),
{
    if s.len() > 0 {
        lemma_split_len(s.drop_last(), d);
    }
}

pub proof fn lemma_split_append_free(x: Seq<char>, b: Seq<char>, d: char)
    requires
        !b.contains(d),
    ensures
        split_on(x + b, d) == split_on(x, d).update(
            split_on(x, d).len() - 1,
            split_on(x, d).last() + b,
        ),
    decreases b.len(),
{
    lemma_split_len(x, d);
    if b.len() == 0 {
        assert(x + b =~= x);
        assert(split_on(x, d).last() + b =~= split_on(x, d).last());
        assert(split_on(x, d).update(split_on(x, d).len() - 1, split_on(x, d).last())
            =~= split_on(x, d));
    } else {
        let b0 = b.drop_last();
        assert(!b0.contains(d)) by {
            assert forall|i: int| 0 <= i < b0.len() implies b0[i] != d by {
                assert(b0[i] == b[i]);
            }
        }
        lemma_split_append_free(x, b0, d);
        assert((x + b).drop_last() =~= x + b0);
        assert((x + b).last() == b.last());
        assert(b.last() != d) by {
            assert(b[b.len() - 1] == b.last());
        }
        assert(split_on(x, d).last() + b =~= (split_on(x, d).last() + b0).push(b.last()));
        assert(split_on(x + b, d) =~= split_on(x, d).update(
            split_on(x, d).len() - 1,
            split_on(x, d).last() + b,
        ));
    }
}

/// Splitting what `join_on` wrote gives the parts back, when no part holds
/// the delimiter.
pub proof fn lemma_split_join(parts: Seq<Seq<char>>, d: char)
    requires
        parts.len() >= 1,
        forall|i: int| 0 <= i < parts.len() ==> !(#[trigger] parts[i]).contains(d),
    ensures
        split_on(join_on(parts, d), d) == parts,
    decreases parts.len(),
{
    if parts.len() == 1 {
        lemma_split_append_free(Seq::empty(), parts[0], d);
        assert(Seq::<char>::empty() + parts[0] =~= parts[0]);
        assert(split_on(Seq::<char>::empty(), d) == seq![Seq::<char>::empty()]);
        assert(Seq::<char>::empty() + parts[0] =~= parts[0]);
        assert(seq![Seq::<char>::empty()].update(0, Seq::<char>::empty() + parts[0]) =~= parts);
    } else {
        let init = parts.drop_last();
        assert forall|i: int| 0 <= i < init.len() implies !(#[trigger] init[i]).contains(d) by {
            assert(init[i] == parts[i]);
        }
        lemma_split_join(init, d);
        let j = join_on(init, d);
        assert(parts.last() == parts[parts.len() - 1]);
        lemma_split_append_free(j.push(d), parts.last(), d);
        assert(j.push(d).drop_last() =~= j);
        assert(split_on(j.push(d), d) == init.push(Seq::empty()));
        assert(Seq::<char>::empty() + parts.last() =~= parts.last());
        assert(init.push(Seq::empty()).update(init.len() as int, Seq::<char>::empty() + parts.last())
            =~= parts);
    }
}

pub proof fn lemma_join2(a: Seq<char>, b: Seq<char>, d: char)
    ensures
        join_on(seq![a, b], d) == a.push(d) + b,
{
    assert(seq![a, b].drop_last() =~= seq![a]);
    assert(seq![a, b].last() == b);
    assert(join_on(seq![a], d) == a);
}

pub proof fn lemma_join3(a: Seq<char>, b: Seq<char>, c: Seq<char>, d: char)
    ensures
        join_on(seq![a, b, c], d) == a.push(d) + b.push(d) + c,
{
    assert(seq![a, b, c].drop_last() =~= seq![a, b]);
    assert(seq![a, b, c].last() == c);
    lemma_join2(a, b, d);
    assert(a.push(d) + b.push(d) + c =~= (a.push(d) + b).push(d) + c);
}

/// Neither part holds `c`, so their concatenation does not either.
pub proof fn lemma_concat_free(a: Seq<char>, b: Seq<char>, c: char)
    requires
        !a.contains(c),
        !b.contains(c),
    ensures
        !(a + b).contains(c),
{
    assert forall|i: int| 0 <= i < (a + b).len() implies (a + b)[i] != c by {
        if i < a.len() {
            assert((a + b)[i] == a[i]);
        } else {
            assert((a + b)[i] == b[i - a.len()]);
        }
    }
}

/// Splits `cs` at every occurrence of `d`.
pub fn split_chars(cs: &Vec<char>, d: char) -> (r: Vec<String>)
    ensures
        views(r@) == split_on(cs@, d),
{
    let n = cs.len();
    let mut parts: Vec<String> = Vec::new();
    let mut start: usize = 0;
    let mut i: usize = 0;
    assert(cs@.take(0) =~= Seq::<char>::empty());
    assert(views(parts@).push(cs@.subrange(0, 0)) =~= seq![Seq::<char>::empty()]);
    while i < n
        invariant
            start <= i <= n == cs@.len(),
            views(parts@).push(cs@.subrange(start as int, i as int)) == split_on(
                cs@.take(i as int),
                d,
            ),
        decreases n - i,
    {
        let ghost before = views(parts@);
        assert(cs@.take(i + 1).drop_last() =~= cs@.take(i as int));
        assert(cs@.take(i + 1).last() == cs@[i as int]);
        if cs[i] == d {
            let part = string_of(cs, start, i);
            parts.push(part);
            assert(views(parts@) =~= before.push(cs@.subrange(start as int, i as int)));
            start = i + 1;
            assert(cs@.subrange(start as int, i + 1) =~= Seq::<char>::empty());
            assert(views(parts@).push(cs@.subrange(start as int, i + 1)) == split_on(
                cs@.take(i + 1),
                d,
            ));
        } else {
            assert(cs@.subrange(start as int, i + 1) =~= cs@.subrange(start as int, i as int).push(
                cs@[i as int],
            ));
            assert(views(parts@).push(cs@.subrange(start as int, i + 1)) =~= split_on(
                cs@.take(i + 1),
                d,
            ));
        }
        i = i + 1;
    }
    let ghost before = views(parts@);
    let last = string_of(cs, start, n);
    parts.push(last);
    assert(views(parts@) =~= before.push(cs@.subrange(start as int, n as int)));
    assert(cs@.take(n as int) =~= cs@);
    parts
}

/// Writes the parts one after another with `d` between each two.
pub fn join_strings(parts: &Vec<String>, d: char) -> (r: String)
    ensures
        r@ == join_on(views(parts@), d),
{
    let n = parts.len();
    let mut r = String::new();
    if n == 0 {
        return r;
    }
    push_str_of(&mut r, &parts[0]);
    assert(views(parts@).take(1) =~= seq![parts@[0]@]);
    let mut i: usize = 1;
    while i < n
        invariant
            1 <= i <= n == parts@.len(),
            r@ == join_on(views(parts@).take(i as int), d),
        decreases n - i,
    {
        push_char(&mut r, d);
        push_str_of(&mut r, &parts[i]);
        assert(views(parts@).take(i + 1).drop_last() =~= views(parts@).take(i as int));
        assert(views(parts@).take(i + 1).last() == parts@[i as int]@);
        i = i + 1;
    }
    assert(views(parts@).take(n as int) =~= views(parts@));
    r
}

/// The index of the first `d` in `s`, or -1 where there is none.
pub open spec fn first_index(s: Seq<char>, d: char) -> int
    decreases s.len(),
{
    if s.len() == 0 {
        -1
    } else if s[0] == d {
        0
    } else {
        let k = first_index(s.skip(1), d);
        if k < 0 {
            -1
        } else {
            k + 1
        }
    }
}

pub proof fn lemma_first_index(s: Seq<char>, d: char, k: int)
    requires
        0 <= k <= s.len(),
        forall|j: int| 0 <= j < k ==> s[j] != d,
        k < s.len() ==> s[k] == d,
    ensures
        first_index(s, d) == if k == s.len() {
            -1
        } else {
            k
        },
    decreases k,
{
    if k > 0 {
        let t = s.skip(1);
        assert forall|j: int| 0 <= j < k - 1 implies t[j] != d by {
            assert(t[j] == s[j + 1]);
        }
        if k < s.len() {
            assert(t[k - 1] == s[k]);
        }
        lemma_first_index(t, d, k - 1);
    }
}

/// The position of the first `d` in `cs`.
pub fn find_char(cs: &Vec<char>, d: char) -> (r: Option<usize>)
    ensures
        match r {
            Some(k) => k as int == first_index(cs@, d) && k < cs@.len(),
            None => first_index(cs@, d) == -1,
        },
{
    let n = cs.len();
    let mut i: usize = 0;
    while i < n
        invariant
            i <= n == cs@.len(),
            forall|j: int| 0 <= j < i ==> cs@[j] != d,
        decreases n - i,
    {
        if cs[i] == d {
            proof {
                lemma_first_index(cs@, d, i as int);
            }
            return Some(i);
        }
        i = i + 1;
    }
    proof {
        lemma_first_index(cs@, d, n as int);
    }
    None
}

/// What follows the last `d` in `s`; all of `s` where it holds no `d`.
pub open spec fn after_last(s: Seq<char>, d: char) -> Seq<char>
    decreases s.len(),
{
    if s.len() == 0 {
        Seq::empty()
    } else if s.last() == d {
        Seq::empty()
    } else {
        after_last(s.drop_last(), d).push(s.last())
    }
}

/// What follows the last `d` in `s`.
pub fn after_last_of(s: &str, d: char) -> (r: String)
    ensures
        r@ == after_last(s@, d),
{
    let cs = chars_of(s);
    let n = cs.len();
    let mut i = n;
    assert(cs@.take(n as int) =~= cs@);
    assert(after_last(cs@, d) + cs@.subrange(n as int, n as int) =~= after_last(cs@, d));
    while i > 0 && cs[i - 1] != d
        invariant
            i <= n == cs@.len(),
            after_last(cs@, d) == after_last(cs@.take(i as int), d) + cs@.subrange(
                i as int,
                n as int,
            ),
        decreases i,
    {
        assert(cs@.take(i as int).drop_last() =~= cs@.take(i - 1));
        assert(cs@.take(i as int).last() == cs@[i - 1]);
        assert(cs@.subrange(i - 1, n as int) =~= seq![cs@[i - 1]] + cs@.subrange(
            i as int,
            n as int,
        ));
        assert(after_last(cs@.take(i - 1), d).push(cs@[i - 1]) + cs@.subrange(i as int, n as int)
            =~= after_last(cs@.take(i - 1), d) + cs@.subrange(i - 1, n as int));
        i = i - 1;
    }
    if i > 0 {
        assert(cs@.take(i as int).last() == cs@[i - 1]);
    }
    assert(after_last(cs@.take(i as int), d) =~= Seq::<char>::empty());
    assert(cs@.take(n as int) =~= cs@);
    string_of(&cs, i, n)
}

/// `s` with every `from` written as `to`.
pub open spec fn replace_all(s: Seq<char>, from: char, to: char) -> Seq<char> {
    s.map_values(
        |c: char|
            if c == from {
                to
            } else {
                c
            },
    )
}

/// `s` with every `from` written as `to`.
pub fn replace_char(s: &str, from: char, to: char) -> (r: String)
    ensures
        r@ == replace_all(s@, from, to),
{
    let cs = chars_of(s);
    let n = cs.len();
    let mut r = String::new();
    let mut i: usize = 0;
    while i < n
        invariant
            i <= n == cs@.len(),
            cs@ == s@,
            r@ == replace_all(cs@.take(i as int), from, to),
        decreases n - i,
    {
        let c = cs[i];
        if c == from {
            push_char(&mut r, to);
        } else {
            push_char(&mut r, c);
        }
        assert(replace_all(cs@.take(i + 1), from, to) =~= replace_all(cs@.take(i as int), from, to).push(
            if c == from {
                to
            } else {
                c
            },
        ));
        i = i + 1;
    }
    assert(cs@.take(n as int) =~= cs@);
    r
}

} // verus!
