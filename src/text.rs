//! Character-level pieces of the snapshot format: literals, quoted strings
//! with escapes, and decimal numbers. Each reader works on the suffix of the
//! input that is left and returns what it read with the suffix after it.
use vstd::prelude::*;

verus! {

/// The characters of the string, in order.
pub(crate) fn chars_of(s: &str) -> (r: Vec<char>)
    ensures
        r@ == s@,
{
    let mut v: Vec<char> = Vec::new();
    push_lit(&mut v, s);
    assert(v@ =~= s@);
    v
}

/// Relies on `String`'s `FromIterator<char>`: the string of the given
/// characters, in order.
#[verifier::external_body]
pub(crate) fn string_from_chars(v: &Vec<char>) -> (r: String)
    ensures
        r@ == v@,
{
    v.iter().collect()
}

/// What is left of `t` after the literal `l`, if `t` starts with it.
pub open spec fn after_lit(t: Seq<char>, l: Seq<char>) -> Option<Seq<char>> {
    if l.len() <= t.len() && t.subrange(0, l.len() as int) == l {
        Some(t.subrange(l.len() as int, t.len() as int))
    } else {
        None
    }
}

/// How a character is written inside a quoted string.
pub open spec fn escape_char(c: char) -> Seq<char> {
    if c == '"' {
        seq!['\\', '"']
    } else if c == '\\' {
        seq!['\\', '\\']
    } else if c == '\n' {
        seq!['\\', 'n']
    } else if c == '\r' {
        seq!['\\', 'r']
    } else if c == '\t' {
        seq!['\\', 't']
    } else {
        seq![c]
    }
}

/// How a string is written between quotes.
pub open spec fn escape(s: Seq<char>) -> Seq<char>
    decreases s.len(),
{
    if s.len() == 0 {
        Seq::empty()
    } else {
        escape_char(s[0]) + escape(s.drop_first())
    }
}

/// The character that the escape `\c` stands for.
pub open spec fn unescape_char(c: char) -> Option<char> {
    if c == '"' {
        Some('"')
    } else if c == '\\' {
        Some('\\')
    } else if c == 'n' {
        Some('\n')
    } else if c == 'r' {
        Some('\r')
    } else if c == 't' {
        Some('\t')
    } else {
        None
    }
}

/// `c` is written through an escape.
pub open spec fn needs_escape(c: char) -> bool {
    c == '"' || c == '\\' || c == '\n' || c == '\r' || c == '\t'
}

pub open spec fn cons_str(c: char, o: Option<(Seq<char>, Seq<char>)>) -> Option<(Seq<char>, Seq<char>)> {
    match o {
        Some((s, r)) => Some((seq![c] + s, r)),
        None => None,
    }
}

pub open spec fn prefix_str(a: Seq<char>, o: Option<(Seq<char>, Seq<char>)>) -> Option<(Seq<char>, Seq<char>)> {
    match o {
        Some((s, r)) => Some((a + s, r)),
        None => None,
    }
}

/// Reads the body of a quoted string (the opening quote already read) up to
/// and including its closing quote.
pub open spec fn read_str(t: Seq<char>) -> Option<(Seq<char>, Seq<char>)>
    decreases t.len(),
{
    if t.len() == 0 {
        None
    } else if t[0] == '"' {
        Some((Seq::empty(), t.drop_first()))
    } else if t[0] == '\\' {
        if t.len() < 2 {
            None
        } else {
            match unescape_char(t[1]) {
                Some(c) => cons_str(c, read_str(t.subrange(2, t.len() as int))),
                None => None,
            }
        }
    } else if needs_escape(t[0]) {
        None
    } else {
        cons_str(t[0], read_str(t.drop_first()))
    }
}

/// `c` is a decimal digit.
pub open spec fn is_digit(c: char) -> bool {
    48 <= (c as u32) && (c as u32) <= 57
}

/// The digit character of `d`.
pub open spec fn digit_char(d: int) -> char {
    if d == 0 {
        '0'
    } else if d == 1 {
        '1'
    } else if d == 2 {
        '2'
    } else if d == 3 {
        '3'
    } else if d == 4 {
        '4'
    } else if d == 5 {
        '5'
    } else if d == 6 {
        '6'
    } else if d == 7 {
        '7'
    } else if d == 8 {
        '8'
    } else {
        '9'
    }
}

/// The decimal digits of `n`, without leading zeros.
pub open spec fn digits(n: nat) -> Seq<char>
    decreases n,
{
    if n < 10 {
        seq![digit_char(n as int)]
    } else {
        digits(n / 10).push(digit_char((n % 10) as int))
    }
}

/// The number that a sequence of digits denotes.
pub open spec fn value(ds: Seq<char>) -> nat
    decreases ds.len(),
{
    if ds.len() == 0 {
        0
    } else {
        value(ds.drop_last()) * 10 + ((ds.last() as u32) - 48) as nat
    }
}

/// The length of the run of digits at the start of `t`.
pub open spec fn digit_run(t: Seq<char>) -> nat
    decreases t.len(),
{
    if t.len() > 0 && is_digit(t[0]) {
        1 + digit_run(t.drop_first())
    } else {
        0
    }
}

/// Reads a decimal number without leading zeros that fits in a `u64`.
pub open spec fn read_num(t: Seq<char>) -> Option<(u64, Seq<char>)> {
    let k = digit_run(t);
    let ds = t.subrange(0, k as int);
    if k == 0 || (k > 1 && (t[0] as u32) == 48) || value(ds) > u64::MAX {
        None
    } else {
        Some((value(ds) as u64, t.subrange(k as int, t.len() as int)))
    }
}

pub proof fn lemma_after_lit(l: Seq<char>, rest: Seq<char>)
    ensures
        after_lit(l + rest, l) == Some(rest),
{
    assert((l + rest).subrange(0, l.len() as int) =~= l);
    assert((l + rest).subrange(l.len() as int, (l + rest).len() as int) =~= rest);
}

pub proof fn lemma_escape_append(a: Seq<char>, b: Seq<char>)
    ensures
        escape(a + b) == escape(a) + escape(b),
    decreases a.len(),
{
    if a.len() == 0 {
        assert(a + b =~= b);
        assert(escape(a) + escape(b) =~= escape(b));
    } else {
        assert((a + b).drop_first() =~= a.drop_first() + b);
        lemma_escape_append(a.drop_first(), b);
        assert(escape(a + b) =~= escape(a) + escape(b));
    }
}

pub proof fn lemma_escape_plain(s: Seq<char>)
    requires
        forall|i: int| 0 <= i < s.len() ==> !needs_escape(#[trigger] s[i]),
    ensures
        escape(s) == s,
    decreases s.len(),
{
    if s.len() > 0 {
        lemma_escape_plain(s.drop_first());
        assert(escape(s) =~= s);
    }
}

/// A quoted string reads back as the string it was written from.
pub proof fn lemma_read_str(s: Seq<char>, rest: Seq<char>)
    ensures
        read_str(escape(s) + seq!['"'] + rest) == Some((s, rest)),
    decreases s.len(),
{
    let t = escape(s) + seq!['"'] + rest;
    if s.len() == 0 {
        assert(t =~= seq!['"'] + rest);
        assert(t.drop_first() =~= rest);
    } else {
        let tail = escape(s.drop_first()) + seq!['"'] + rest;
        lemma_read_str(s.drop_first(), rest);
        let c = s[0];
        assert(t =~= escape_char(c) + tail);
        if needs_escape(c) {
            assert(t.subrange(2, t.len() as int) =~= tail);
        } else {
            assert(t.drop_first() =~= tail);
        }
        assert(seq![c] + s.drop_first() =~= s);
    }
}

proof fn lemma_digit_char(d: int)
    requires
        0 <= d < 10,
    ensures
        is_digit(digit_char(d)),
        (digit_char(d) as u32) - 48 == d,
{
}

pub proof fn lemma_digits(n: nat)
    ensures
        forall|i: int| 0 <= i < digits(n).len() ==> is_digit(#[trigger] digits(n)[i]),
        value(digits(n)) == n,
        digits(n).len() >= 1,
        digits(n).len() > 1 ==> (digits(n)[0] as u32) != 48,
        n >= 10 ==> digits(n).len() > 1,
    decreases n,
{
    if n < 10 {
        lemma_digit_char(n as int);
        assert(digits(n).drop_last() =~= Seq::<char>::empty());
        assert(value(Seq::<char>::empty()) == 0);
        assert(value(digits(n)) == value(digits(n).drop_last()) * 10 + ((digits(n).last() as u32) - 48) as nat);
    } else {
        lemma_digits(n / 10);
        lemma_digit_char((n % 10) as int);
        let p = digits(n / 10);
        assert(digits(n).drop_last() =~= p);
        assert forall|i: int| 0 <= i < digits(n).len() implies is_digit(#[trigger] digits(n)[i]) by {
            if i < p.len() {
                assert(digits(n)[i] == p[i]);
            }
        }
        if n / 10 < 10 {
            lemma_digit_char((n / 10) as int);
        }
        assert(digits(n)[0] == p[0]);
        assert(value(digits(n)) == value(p) * 10 + ((digits(n).last() as u32) - 48) as nat);
        assert(n == (n / 10) * 10 + n % 10);
    }
}

proof fn lemma_digit_run(ds: Seq<char>, rest: Seq<char>)
    requires
        forall|i: int| 0 <= i < ds.len() ==> is_digit(#[trigger] ds[i]),
        rest.len() == 0 || !is_digit(rest[0]),
    ensures
        digit_run(ds + rest) == ds.len(),
    decreases ds.len(),
{
    if ds.len() == 0 {
        assert(ds + rest =~= rest);
    } else {
        assert((ds + rest).drop_first() =~= ds.drop_first() + rest);
        assert forall|i: int| 0 <= i < ds.drop_first().len() implies is_digit(#[trigger] ds.drop_first()[i]) by {
            assert(ds.drop_first()[i] == ds[i + 1]);
        }
        lemma_digit_run(ds.drop_first(), rest);
    }
}

proof fn lemma_digit_run_digits(t: Seq<char>)
    ensures
        digit_run(t) <= t.len(),
        forall|i: int| 0 <= i < digit_run(t) ==> is_digit(#[trigger] t[i]),
        digit_run(t) < t.len() ==> !is_digit(t[digit_run(t) as int]),
    decreases t.len(),
{
    if t.len() > 0 && is_digit(t[0]) {
        lemma_digit_run_digits(t.drop_first());
        assert forall|i: int| 0 <= i < digit_run(t) implies is_digit(#[trigger] t[i]) by {
            if i > 0 {
                assert(t[i] == t.drop_first()[i - 1]);
            }
        }
    }
}

proof fn lemma_value_prefix(ds: Seq<char>, m: int)
    requires
        0 <= m <= ds.len(),
    ensures
        value(ds.subrange(0, m)) <= value(ds),
    decreases ds.len() - m,
{
    if m < ds.len() {
        lemma_value_prefix(ds, m + 1);
        assert(ds.subrange(0, m + 1).drop_last() =~= ds.subrange(0, m));
    } else {
        assert(ds.subrange(0, m) =~= ds);
    }
}

/// A number written in decimal reads back as itself, when no digit follows.
pub proof fn lemma_read_num(n: u64, rest: Seq<char>)
    requires
        rest.len() == 0 || !is_digit(rest[0]),
    ensures
        read_num(digits(n as nat) + rest) == Some((n, rest)),
{
    let ds = digits(n as nat);
    let t = ds + rest;
    lemma_digits(n as nat);
    lemma_digit_run(ds, rest);
    assert(t.subrange(0, ds.len() as int) =~= ds);
    assert(t.subrange(ds.len() as int, t.len() as int) =~= rest);
}

/// Appends the characters of `l`.
pub(crate) fn push_lit(out: &mut Vec<char>, l: &str)
    ensures
        final(out)@ == old(out)@ + l@,
{
    let n = l.unicode_len();
    let mut i: usize = 0;
    while i < n
        invariant
            n == l@.len(),
            i <= n,
            out@ == old(out)@ + l@.subrange(0, i as int),
        decreases n - i,
    {
        out.push(l.get_char(i));
        i = i + 1;
        assert(out@ =~= old(out)@ + l@.subrange(0, i as int));
    }
    assert(l@.subrange(0, n as int) =~= l@);
}

/// Appends `s` as it is written between quotes.
pub(crate) fn push_escaped(out: &mut Vec<char>, s: &str)
    ensures
        final(out)@ == old(out)@ + escape(s@),
{
    let cs = chars_of(s);
    let n = cs.len();
    let mut i: usize = 0;
    while i < n
        invariant
            n == cs@.len(),
            cs@ == s@,
            i <= n,
            out@ == old(out)@ + escape(cs@.subrange(0, i as int)),
        decreases n - i,
    {
        let c = cs[i];
        if c == '"' {
            out.push('\\');
            out.push('"');
        } else if c == '\\' {
            out.push('\\');
            out.push('\\');
        } else if c == '\n' {
            out.push('\\');
            out.push('n');
        } else if c == '\r' {
            out.push('\\');
            out.push('r');
        } else if c == '\t' {
            out.push('\\');
            out.push('t');
        } else {
            out.push(c);
        }
        proof {
            let a = cs@.subrange(0, i as int);
            lemma_escape_append(a, seq![c]);
            assert(cs@.subrange(0, i + 1) =~= a + seq![c]);
            assert(escape(seq![c]) =~= escape_char(c)) by {
                assert(seq![c].drop_first() =~= Seq::<char>::empty());
                assert(seq![c][0] == c);
                assert(escape(Seq::<char>::empty()) =~= Seq::<char>::empty());
                assert(escape(seq![c]) == escape_char(c) + escape(Seq::<char>::empty()));
            }
        }
        i = i + 1;
        assert(out@ =~= old(out)@ + escape(cs@.subrange(0, i as int)));
    }
    assert(cs@.subrange(0, n as int) =~= s@);
}

fn digit_of(d: u64) -> (c: char)
    requires
        d < 10,
    ensures
        c == digit_char(d as int),
{
    if d == 0 {
        '0'
    } else if d == 1 {
        '1'
    } else if d == 2 {
        '2'
    } else if d == 3 {
        '3'
    } else if d == 4 {
        '4'
    } else if d == 5 {
        '5'
    } else if d == 6 {
        '6'
    } else if d == 7 {
        '7'
    } else if d == 8 {
        '8'
    } else {
        '9'
    }
}

/// Appends the decimal digits of `n`.
pub(crate) fn push_digits(out: &mut Vec<char>, n: u64)
    ensures
        final(out)@ == old(out)@ + digits(n as nat),
    decreases n,
{
    if n >= 10 {
        push_digits(out, n / 10);
    }
    out.push(digit_of(n % 10));
    assert(out@ =~= old(out)@ + digits(n as nat));
}

/// Reads the literal `l` at position `i` of `t`; the position after it.
pub(crate) fn read_lit_at(t: &Vec<char>, i: usize, l: &str) -> (r: Option<usize>)
    requires
        i <= t@.len(),
    ensures
        match r {
            Some(j) => i <= j <= t@.len() && j == i + l@.len() && after_lit(t@.subrange(i as int, t@.len() as int), l@) == Some(
                t@.subrange(j as int, t@.len() as int),
            ),
            None => after_lit(t@.subrange(i as int, t@.len() as int), l@) is None,
        },
{
    let n = l.unicode_len();
    let tl = t.len();
    let ghost u = t@.subrange(i as int, t@.len() as int);
    if n > tl - i {
        return None;
    }
    let mut k: usize = 0;
    while k < n
        invariant
            tl == t@.len(),
            n == l@.len(),
            k <= n,
            i + n <= t@.len(),
            u == t@.subrange(i as int, t@.len() as int),
            forall|m: int| 0 <= m < k ==> u[m] == #[trigger] l@[m],
        decreases n - k,
    {
        if t[i + k] != l.get_char(k) {
            assert(u.subrange(0, n as int)[k as int] != l@[k as int]);
            return None;
        }
        k = k + 1;
    }
    assert(u.subrange(0, n as int) =~= l@);
    assert(u.subrange(n as int, u.len() as int) =~= t@.subrange(i + n, t@.len() as int));
    Some(i + n)
}

/// Reads a quoted string's body and closing quote at position `i` of `t`.
pub(crate) fn read_str_at(t: &Vec<char>, i: usize) -> (r: Option<(Vec<char>, usize)>)
    requires
        i <= t@.len(),
    ensures
        match r {
            Some((s, j)) => i <= j <= t@.len() && read_str(t@.subrange(i as int, t@.len() as int)) == Some(
                (s@, t@.subrange(j as int, t@.len() as int)),
            ),
            None => read_str(t@.subrange(i as int, t@.len() as int)) is None,
        },
{
    let n = t.len();
    let mut acc: Vec<char> = Vec::new();
    let mut p: usize = i;
    while p < n
        invariant
            n == t@.len(),
            i <= p <= n,
            read_str(t@.subrange(i as int, n as int)) == prefix_str(acc@, read_str(t@.subrange(p as int, n as int))),
        decreases n - p,
    {
        let ghost u = t@.subrange(p as int, n as int);
        let c = t[p];
        assert(u[0] == c);
        if c == '"' {
            assert(u.drop_first() =~= t@.subrange(p + 1, n as int));
            assert(acc@ + Seq::<char>::empty() =~= acc@);
            return Some((acc, p + 1));
        } else if c == '\\' {
            if p + 1 >= n {
                return None;
            }
            let e = t[p + 1];
            assert(u[1] == e);
            let d = if e == '"' {
                '"'
            } else if e == '\\' {
                '\\'
            } else if e == 'n' {
                '\n'
            } else if e == 'r' {
                '\r'
            } else if e == 't' {
                '\t'
            } else {
                return None;
            };
            assert(u.subrange(2, u.len() as int) =~= t@.subrange(p + 2, n as int));
            proof {
                let o = read_str(t@.subrange(p + 2, n as int));
                match o {
                    Some((s, r)) => {
                        assert(acc@ + (seq![d] + s) =~= acc@.push(d) + s);
                    },
                    None => {},
                }
            }
            acc.push(d);
            p = p + 2;
        } else if c == '\n' || c == '\r' || c == '\t' {
            return None;
        } else {
            assert(u.drop_first() =~= t@.subrange(p + 1, n as int));
            proof {
                let o = read_str(t@.subrange(p + 1, n as int));
                match o {
                    Some((s, r)) => {
                        assert(acc@ + (seq![c] + s) =~= acc@.push(c) + s);
                    },
                    None => {},
                }
            }
            acc.push(c);
            p = p + 1;
        }
    }
    None
}

/// Reads a decimal number at position `i` of `t`.
pub(crate) fn read_num_at(t: &Vec<char>, i: usize) -> (r: Option<(u64, usize)>)
    requires
        i <= t@.len(),
    ensures
        match r {
            Some((v, j)) => i <= j <= t@.len() && read_num(t@.subrange(i as int, t@.len() as int)) == Some(
                (v, t@.subrange(j as int, t@.len() as int)),
            ),
            None => read_num(t@.subrange(i as int, t@.len() as int)) is None,
        },
{
    let n = t.len();
    let ghost u = t@.subrange(i as int, n as int);
    proof {
        lemma_digit_run_digits(u);
    }
    let mut k: usize = i;
    while k < n && 48 <= (t[k] as u32) && (t[k] as u32) <= 57
        invariant
            n == t@.len(),
            i <= k <= n,
            u == t@.subrange(i as int, n as int),
            k - i <= digit_run(u),
            digit_run(u) <= u.len(),
            forall|m: int| 0 <= m < digit_run(u) ==> is_digit(#[trigger] u[m]),
            digit_run(u) < u.len() ==> !is_digit(u[digit_run(u) as int]),
        decreases n - k,
    {
        assert(u[k - i] == t@[k as int]);
        k = k + 1;
    }
    assert(k - i == digit_run(u)) by {
        if k < n {
            assert(u[k - i] == t@[k as int]);
        }
    }
    let run = k - i;
    if run == 0 || (run > 1 && (t[i] as u32) == 48) {
        return None;
    }
    let ghost ds = u.subrange(0, run as int);
    let mut acc: u64 = 0;
    let mut m: usize = 0;
    while m < run
        invariant
            n == t@.len(),
            run == k - i,
            run == digit_run(u),
            i + run <= n,
            m <= run,
            ds == u.subrange(0, run as int),
            u == t@.subrange(i as int, n as int),
            forall|q: int| 0 <= q < run ==> is_digit(#[trigger] u[q]),
            acc == value(ds.subrange(0, m as int)),
        decreases run - m,
    {
        let c = t[i + m];
        assert(c == u[m as int]);
        let d = ((c as u32) - 48) as u64;
        proof {
            assert(ds.subrange(0, m + 1).drop_last() =~= ds.subrange(0, m as int));
            assert(ds.subrange(0, m + 1).last() == c);
            assert(value(ds.subrange(0, m + 1)) == value(ds.subrange(0, m as int)) * 10 + d);
        }
        if acc > (u64::MAX - d) / 10 {
            proof {
                lemma_value_prefix(ds, m + 1);
                assert(value(ds.subrange(0, m + 1)) == acc * 10 + d);
                assert(acc * 10 + d > u64::MAX) by (nonlinear_arith)
                    requires
                        acc > (u64::MAX - d) / 10,
                        d <= 9,
                ;
            }
            return None;
        }
        assert(acc * 10 + d <= u64::MAX) by (nonlinear_arith)
            requires
                acc <= (u64::MAX - d) / 10,
                d <= 9,
        ;
        acc = acc * 10 + d;
        m = m + 1;
    }
    assert(ds.subrange(0, run as int) =~= ds);
    assert(u.subrange(run as int, u.len() as int) =~= t@.subrange(k as int, n as int));
    Some((acc, k))
}

/// `c` is JSON whitespace.
pub open spec fn is_ws(c: char) -> bool {
    c == ' ' || c == '\n' || c == '\r' || c == '\t'
}

/// `t` without its leading whitespace.
pub open spec fn skip_ws(t: Seq<char>) -> Seq<char>
    decreases t.len(),
{
    if t.len() > 0 && is_ws(t[0]) {
        skip_ws(t.drop_first())
    } else {
        t
    }
}

/// What is left of `t` after whitespace and then the token `l`.
pub open spec fn tok(t: Seq<char>, l: Seq<char>) -> Option<Seq<char>> {
    after_lit(skip_ws(t), l)
}

/// A token that does not start with whitespace is read where it stands.
pub proof fn lemma_tok(l: Seq<char>, rest: Seq<char>)
    requires
        l.len() > 0,
        !is_ws(l[0]),
    ensures
        tok(l + rest, l) == Some(rest),
{
    assert((l + rest)[0] == l[0]);
    lemma_after_lit(l, rest);
}

/// Skips the whitespace at position `i` of `t`; the position after it.
pub(crate) fn skip_ws_at(t: &Vec<char>, i: usize) -> (j: usize)
    requires
        i <= t@.len(),
    ensures
        i <= j <= t@.len(),
        skip_ws(t@.subrange(i as int, t@.len() as int)) == t@.subrange(j as int, t@.len() as int),
{
    let n = t.len();
    let mut j: usize = i;
    while j < n && (t[j] == ' ' || t[j] == '\n' || t[j] == '\r' || t[j] == '\t')
        invariant
            n == t@.len(),
            i <= j <= n,
            skip_ws(t@.subrange(i as int, n as int)) == skip_ws(t@.subrange(j as int, n as int)),
        decreases n - j,
    {
        assert(t@.subrange(j as int, n as int).drop_first() =~= t@.subrange(j + 1, n as int));
        j = j + 1;
    }
    j
}

/// Reads whitespace and then the token `l` at position `i` of `t`.
pub(crate) fn tok_at(t: &Vec<char>, i: usize, l: &str) -> (r: Option<usize>)
    requires
        i <= t@.len(),
    ensures
        match r {
            Some(j) => i + l@.len() <= j <= t@.len() && tok(t@.subrange(i as int, t@.len() as int), l@) == Some(
                t@.subrange(j as int, t@.len() as int),
            ),
            None => tok(t@.subrange(i as int, t@.len() as int), l@) is None,
        },
{
    let j = skip_ws_at(t, i);
    read_lit_at(t, j, l)
}

} // verus!
