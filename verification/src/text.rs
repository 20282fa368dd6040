//! Text helpers on strings seen as sequences of characters: ordering,
//! prefixes, splitting, decimal numbers.

use vstd::prelude::*;
use vstd::string::StringExecFns;

verus! {

/// Appends one character, by `String::push`. The standard library documents
/// that it appends the given `char` to the end of the string.
#[verifier::external_body]
pub(crate) fn push_char(s: &mut String, c: char)
    ensures
        final(s)@ == old(s)@.push(c),
{
    s.push(c)
}

/// The characters of `s`, in order.
pub fn chars_of(s: &str) -> (v: Vec<char>)
    ensures
        v@ == s@,
{
    let mut v: Vec<char> = Vec::new();
    for c in it: s.chars()
        invariant
            it.seq() == s@,
            v@ == s@.take(it.index() as int),
    {
        v.push(c);
        assert(s@.take(it.index() + 1) =~= s@.take(it.index() as int).push(c));
    }
    assert(v@ =~= s@);
    v
}

/// A string holding the characters `cs[from..to]`.
pub fn string_from_chars(cs: &Vec<char>, from: usize, to: usize) -> (s: String)
    requires
        from <= to <= cs.len(),
    ensures
        s@ == cs@.subrange(from as int, to as int),
{
    let mut s = String::new();
    let mut i = from;
    while i < to
        invariant
            from <= i <= to <= cs.len(),
            s@ == cs@.subrange(from as int, i as int),
        decreases to - i,
    {
        push_char(&mut s, cs[i]);
        assert(cs@.subrange(from as int, i + 1) =~= cs@.subrange(from as int, i as int).push(cs@[i as int]));
        i = i + 1;
    }
    s
}

/// `a` followed by `b`, as a new string.
pub fn concat(a: &str, b: &str) -> (s: String)
    ensures
        s@ == a@ + b@,
{
    let mut s = a.to_owned();
    s.append(b);
    s
}

/// Strings are ordered by comparing their characters from the first one on;
/// a proper prefix comes first. (This is the order of `str`, since UTF-8
/// keeps the order of code points.)
pub open spec fn seq_lt(a: Seq<char>, b: Seq<char>) -> bool
    decreases a.len(),
{
    if b.len() == 0 {
        false
    } else if a.len() == 0 {
        true
    } else if a[0] != b[0] {
        (a[0] as int) < (b[0] as int)
    } else {
        seq_lt(a.drop_first(), b.drop_first())
    }
}

proof fn lemma_seq_lt_skip(a: Seq<char>, b: Seq<char>, i: int)
    requires
        0 <= i <= a.len(),
        i <= b.len(),
        a.take(i) == b.take(i),
    ensures
        seq_lt(a, b) == seq_lt(a.skip(i), b.skip(i)),
    decreases i,
{
    if i > 0 {
        assert(a[0] == a.take(i)[0]);
        assert(b[0] == b.take(i)[0]);
        assert(a.drop_first().take(i - 1) =~= a.take(i).drop_first());
        assert(b.drop_first().take(i - 1) =~= b.take(i).drop_first());
        lemma_seq_lt_skip(a.drop_first(), b.drop_first(), i - 1);
        assert(a.drop_first().skip(i - 1) =~= a.skip(i));
        assert(b.drop_first().skip(i - 1) =~= b.skip(i));
    } else {
        assert(a.skip(0) =~= a);
        assert(b.skip(0) =~= b);
    }
}

/// The order is irreflexive.
pub proof fn lemma_seq_lt_irreflexive(a: Seq<char>)
    ensures
        !seq_lt(a, a),
    decreases a.len(),
{
    if a.len() > 0 {
        lemma_seq_lt_irreflexive(a.drop_first());
    }
}

/// The order is total on distinct strings.
pub proof fn lemma_seq_lt_total(a: Seq<char>, b: Seq<char>)
    requires
        a != b,
    ensures
        seq_lt(a, b) || seq_lt(b, a),
    decreases a.len(),
{
    if a.len() > 0 && b.len() > 0 && a[0] == b[0] {
        if a.drop_first() == b.drop_first() {
            assert(a =~= seq![a[0]] + a.drop_first());
            assert(b =~= seq![b[0]] + b.drop_first());
        }
        lemma_seq_lt_total(a.drop_first(), b.drop_first());
    } else if a.len() == 0 && b.len() == 0 {
        assert(a =~= b);
    } else if a.len() > 0 && b.len() > 0 {
        assert((a[0] as int) != (b[0] as int));
    }
}

/// The order is asymmetric.
pub proof fn lemma_seq_lt_asym(a: Seq<char>, b: Seq<char>)
    requires
        seq_lt(a, b),
    ensures
        !seq_lt(b, a),
    decreases a.len(),
{
    if a.len() > 0 && b.len() > 0 && a[0] == b[0] {
        lemma_seq_lt_asym(a.drop_first(), b.drop_first());
    }
}

/// The order is transitive.
pub proof fn lemma_seq_lt_trans(a: Seq<char>, b: Seq<char>, c: Seq<char>)
    requires
        seq_lt(a, b),
        seq_lt(b, c),
    ensures
        seq_lt(a, c),
    decreases a.len(),
{
    if a.len() > 0 && b.len() > 0 && c.len() > 0 && a[0] == b[0] && b[0] == c[0] {
        lemma_seq_lt_trans(a.drop_first(), b.drop_first(), c.drop_first());
    }
}

/// Whether `a` comes strictly before `b`.
pub fn str_lt(a: &str, b: &str) -> (r: bool)
    ensures
        r == seq_lt(a@, b@),
{
    let ca = chars_of(a);
    let cb = chars_of(b);
    let mut i: usize = 0;
    while i < ca.len() && i < cb.len()
        invariant
            ca@ == a@,
            cb@ == b@,
            i <= ca.len(),
            i <= cb.len(),
            ca@.take(i as int) == cb@.take(i as int),
        decreases ca.len() - i,
    {
        if ca[i] != cb[i] {
            proof {
                lemma_seq_lt_skip(ca@, cb@, i as int);
            }
            return ca[i] < cb[i];
        }
        assert(ca@.take(i + 1) =~= ca@.take(i as int).push(ca@[i as int]));
        assert(cb@.take(i + 1) =~= cb@.take(i as int).push(cb@[i as int]));
        i = i + 1;
    }
    proof {
        lemma_seq_lt_skip(ca@, cb@, i as int);
    }
    i == ca.len() && i < cb.len()
}

/// Whether `s` starts with `prefix`.
pub fn starts_with(s: &str, prefix: &str) -> (r: bool)
    ensures
        r == (prefix@.len() <= s@.len() && s@.take(prefix@.len() as int) == prefix@),
{
    let cs = chars_of(s);
    let cp = chars_of(prefix);
    if cp.len() > cs.len() {
        return false;
    }
    let mut i: usize = 0;
    while i < cp.len()
        invariant
            cs@ == s@,
            cp@ == prefix@,
            cp.len() <= cs.len(),
            i <= cp.len(),
            cs@.take(i as int) == cp@.take(i as int),
        decreases cp.len() - i,
    {
        if cs[i] != cp[i] {
            assert(cs@.take(cp.len() as int)[i as int] != cp@[i as int]);
            return false;
        }
        assert(cs@.take(i + 1) =~= cs@.take(i as int).push(cs@[i as int]));
        assert(cp@.take(i + 1) =~= cp@.take(i as int).push(cp@[i as int]));
        i = i + 1;
    }
    assert(cp@.take(cp.len() as int) =~= cp@);
    true
}

/// `s` without `prefix`, when it starts with it.
pub fn strip_prefix(s: &str, prefix: &str) -> (r: Option<String>)
    ensures
        r is Some == (prefix@.len() <= s@.len() && s@.take(prefix@.len() as int) == prefix@),
        r matches Some(rest) ==> rest@ == s@.skip(prefix@.len() as int),
{
    if starts_with(s, prefix) {
        let cs = chars_of(s);
        let n = prefix.unicode_len();
        Some(string_from_chars(&cs, n, cs.len()))
    } else {
        None
    }
}

/// The position of the first `c` in `cs`, if any.
pub open spec fn first_index_of(cs: Seq<char>, c: char) -> Option<int> {
    if exists|i: int| 0 <= i < cs.len() && cs[i] == c {
        Some(choose|i: int| 0 <= i < cs.len() && cs[i] == c && forall|j: int| 0 <= j < i ==> cs[j] != c)
    } else {
        None
    }
}

/// Splits at the first `c`: the text before it and the text after it.
pub fn split_once(s: &str, c: char) -> (r: Option<(String, String)>)
    ensures
        r is None == forall|i: int| 0 <= i < s@.len() ==> s@[i] != c,
        r matches Some(p) ==> exists|i: int|
            0 <= i < s@.len() && s@[i] == c && (forall|j: int| 0 <= j < i ==> s@[j] != c) && p.0@
                == s@.take(i) && p.1@ == s@.skip(i + 1),
{
    let cs = chars_of(s);
    let mut i: usize = 0;
    while i < cs.len()
        invariant
            cs@ == s@,
            i <= cs.len(),
            forall|j: int| 0 <= j < i ==> cs@[j] != c,
        decreases cs.len() - i,
    {
        if cs[i] == c {
            let before = string_from_chars(&cs, 0, i);
            let after = string_from_chars(&cs, i + 1, cs.len());
            assert(cs@.subrange(0, i as int) =~= s@.take(i as int));
            assert(cs@.subrange(i + 1, cs.len() as int) =~= s@.skip(i + 1));
            return Some((before, after));
        }
        i = i + 1;
    }
    None
}

/// The pieces of `cs` between the occurrences of `sep`; there is always at
/// least one piece, and consecutive separators give empty pieces
/// (as `str::split` does).
pub open spec fn split_spec(cs: Seq<char>, sep: char) -> Seq<Seq<char>>
    decreases cs.len(),
{
    if cs.len() == 0 {
        seq![Seq::empty()]
    } else {
        let rest = split_spec(cs.drop_last(), sep);
        if cs.last() == sep {
            rest.push(Seq::empty())
        } else {
            rest.update(rest.len() - 1, rest.last().push(cs.last()))
        }
    }
}

proof fn lemma_split_nonempty(cs: Seq<char>, sep: char)
    ensures
        split_spec(cs, sep).len() >= 1,
    decreases cs.len(),
{
    if cs.len() > 0 {
        lemma_split_nonempty(cs.drop_last(), sep);
    }
}

/// Splits `s` at every `sep`.
pub fn split(s: &str, sep: char) -> (parts: Vec<String>)
    ensures
        parts@.len() == split_spec(s@, sep).len(),
        forall|i: int| 0 <= i < parts@.len() ==> #[trigger] parts@[i]@ == split_spec(s@, sep)[i],
{
    let cs = chars_of(s);
    let mut parts: Vec<String> = Vec::new();
    let mut current = String::new();
    let mut i: usize = 0;
    assert(cs@.take(0) =~= Seq::<char>::empty());
    while i < cs.len()
        invariant
            cs@ == s@,
            i <= cs.len(),
            parts@.len() + 1 == split_spec(cs@.take(i as int), sep).len(),
            forall|k: int| 0 <= k < parts@.len() ==> #[trigger] parts@[k]@ == split_spec(cs@.take(i as int), sep)[k],
            current@ == split_spec(cs@.take(i as int), sep).last(),
        decreases cs.len() - i,
    {
        proof {
            lemma_split_nonempty(cs@.take(i as int), sep);
        }
        let ghost prev = split_spec(cs@.take(i as int), sep);
        assert(cs@.take(i + 1).drop_last() =~= cs@.take(i as int));
        assert(cs@.take(i + 1).last() == cs@[i as int]);
        if cs[i] == sep {
            let done = current;
            parts.push(done);
            current = String::new();
        } else {
            push_char(&mut current, cs[i]);
        }
        i = i + 1;
    }
    assert(cs@.take(cs.len() as int) =~= cs@);
    parts.push(current);
    parts
}

/// The value of a string of decimal digits.
pub open spec fn digits_value(ds: Seq<char>) -> int
    decreases ds.len(),
{
    if ds.len() == 0 {
        0
    } else {
        digits_value(ds.drop_last()) * 10 + (ds.last() as u32 - '0' as u32)
    }
}

/// Whether every character is an ASCII decimal digit.
pub open spec fn all_digits(ds: Seq<char>) -> bool {
    forall|i: int| 0 <= i < ds.len() ==> '0' <= #[trigger] ds[i] <= '9'
}

/// The integer that `cs` spells in decimal, as `str::parse` reads integers:
/// an optional `+` or `-`, then at least one digit, nothing else.
pub open spec fn integer_value(cs: Seq<char>) -> Option<int> {
    let (neg, ds) = if cs.len() > 0 && (cs[0] == '+' || cs[0] == '-') {
        (cs[0] == '-', cs.drop_first())
    } else {
        (false, cs)
    };
    if ds.len() == 0 || !all_digits(ds) {
        None
    } else if neg {
        Some(-digits_value(ds))
    } else {
        Some(digits_value(ds))
    }
}

proof fn lemma_digits_monotone(ds: Seq<char>, i: int, j: int)
    requires
        0 <= i <= j <= ds.len(),
        all_digits(ds),
    ensures
        0 <= digits_value(ds.take(i)) <= digits_value(ds.take(j)),
    decreases j - i,
{
    if i < j {
        lemma_digits_monotone(ds, i, j - 1);
        assert(ds.take(j).drop_last() =~= ds.take(j - 1));
        assert('0' <= ds[j - 1] <= '9');
    } else {
        lemma_digits_nonneg(ds.take(i));
    }
}

proof fn lemma_digits_nonneg(ds: Seq<char>)
    requires
        all_digits(ds),
    ensures
        digits_value(ds) >= 0,
    decreases ds.len(),
{
    if ds.len() > 0 {
        assert(all_digits(ds.drop_last()));
        assert('0' <= ds[ds.len() - 1] <= '9');
        lemma_digits_nonneg(ds.drop_last());
    }
}

/// Reads a decimal integer between `lo` and `hi`, as `str::parse` does for an
/// integer type with that range: `None` when the text is not an integer or
/// the integer is out of range.
pub fn parse_integer(s: &str, lo: i64, hi: i64) -> (r: Option<i64>)
    requires
        lo <= 0 <= hi,
    ensures
        r == (match integer_value(s@) {
            Some(v) => if lo <= v <= hi {
                Some(v as i64)
            } else {
                None
            },
            None => None,
        }),
{
    let cs = chars_of(s);
    let mut start: usize = 0;
    let mut neg = false;
    if cs.len() > 0 && (cs[0] == '+' || cs[0] == '-') {
        neg = cs[0] == '-';
        start = 1;
    }
    let ghost ds = if start == 1 {
        cs@.drop_first()
    } else {
        cs@
    };
    if start == cs.len() {
        return None;
    }
    // Larger than the magnitude of any `i64`.
    let bound: i128 = 0x1_0000_0000_0000_0000;
    let mut acc: i128 = 0;
    let mut i = start;
    let mut too_big = false;
    assert(ds.take(0) =~= Seq::<char>::empty());
    while i < cs.len()
        invariant
            cs@ == s@,
            start <= i <= cs.len(),
            start == (if cs@.len() > 0 && (cs@[0] == '+' || cs@[0] == '-') {
                1usize
            } else {
                0usize
            }),
            neg == (start == 1 && cs@[0] == '-'),
            ds =~= cs@.skip(start as int),
            bound == 0x1_0000_0000_0000_0000,
            all_digits(ds.take(i - start)),
            !too_big ==> acc == digits_value(ds.take(i - start)),
            too_big ==> digits_value(ds.take(i - start)) > bound,
            0 <= acc <= bound,
        decreases cs.len() - i,
    {
        let c = cs[i];
        if !('0' <= c && c <= '9') {
            assert(ds[i - start] == c);
            return None;
        }
        assert(ds.take(i - start + 1).drop_last() =~= ds.take(i - start));
        assert(all_digits(ds.take(i - start + 1)));
        if !too_big {
            let d = (c as u32 - '0' as u32) as i128;
            let next = acc * 10 + d;
            if next > bound {
                too_big = true;
            } else {
                acc = next;
            }
        }
        i = i + 1;
    }
    assert(ds.take(ds.len() as int) =~= ds);
    if too_big {
        return None;
    }
    let v: i128 = if neg {
        -acc
    } else {
        acc
    };
    if (lo as i128) <= v && v <= (hi as i128) {
        Some(v as i64)
    } else {
        None
    }
}

/// The decimal digits of `n`, most significant first; zero is `"0"`.
pub open spec fn decimal(n: nat) -> Seq<char>
    decreases n,
{
    if n < 10 {
        seq![((n + '0' as u32) as u32) as char]
    } else {
        decimal(n / 10).push((((n % 10) + '0' as u32) as u32) as char)
    }
}

/// Writes `n` in decimal.
pub fn decimal_string(n: usize) -> (s: String)
    ensures
        s@ == decimal(n as nat),
    decreases n,
{
    let digit = ((n % 10) as u8 + 48u8) as char;
    if n < 10 {
        let mut s = String::new();
        push_char(&mut s, digit);
        assert(s@ =~= decimal(n as nat));
        s
    } else {
        let mut s = decimal_string(n / 10);
        push_char(&mut s, digit);
        s
    }
}

/// `n` in decimal, with a leading `-` when it is negative.
pub open spec fn signed_decimal(n: int) -> Seq<char> {
    if n < 0 {
        seq!['-'] + decimal((-n) as nat)
    } else {
        decimal(n as nat)
    }
}

/// Writes `n` in decimal, as `format!` does.
pub fn signed_decimal_string(n: i32) -> (s: String)
    ensures
        s@ == signed_decimal(n as int),
{
    if n < 0 {
        let magnitude: i64 = -(n as i64);
        let digits = decimal_string(magnitude as usize);
        let s = concat("-", digits.as_str());
        proof {
            reveal_strlit("-");
        }
        s
    } else {
        decimal_string(n as usize)
    }
}

} // verus!
