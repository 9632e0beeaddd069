//! Decimal notation of integers and separator-delimited lists of tokens.
use vstd::prelude::*;
use vstd::string::*;

verus! {

/// The character of a decimal digit `0 <= d < 10`.
pub open spec fn digit_char(d: int) -> char {
    (d + 48) as u8 as char
}

pub open spec fn is_digit(c: char) -> bool {
    '0' <= c && c <= '9'
}

pub open spec fn digit_value(c: char) -> int {
    c as int - 48
}

pub open spec fn all_digits(ds: Seq<char>) -> bool {
    forall|i: int| 0 <= i < ds.len() ==> is_digit(#[trigger] ds[i])
}

/// The value of a sequence of decimal digits, most significant first.
pub open spec fn digits_value(ds: Seq<char>) -> int
    decreases ds.len(),
{
    if ds.len() == 0 {
        0
    } else {
        digits_value(ds.drop_last()) * 10 + digit_value(ds.last())
    }
}

/// The digits of `n` without leading zeros ("0" for zero).
pub open spec fn digits_of(n: nat) -> Seq<char>
    decreases n,
{
    if n < 10 {
        seq![digit_char(n as int)]
    } else {
        digits_of(n / 10).push(digit_char(n as int % 10))
    }
}

/// Canonical decimal notation: a minus sign for negative values, no plus sign,
/// no leading zeros.
pub open spec fn decimal(n: int) -> Seq<char> {
    if n < 0 {
        seq!['-'].add(digits_of((-n) as nat))
    } else {
        digits_of(n as nat)
    }
}

/// The integer a token denotes: an optional `+` or `-` sign followed by one or
/// more decimal digits.
pub open spec fn int_value(t: Seq<char>) -> Option<int> {
    if t.len() > 0 && (t[0] == '-' || t[0] == '+') {
        let ds = t.drop_first();
        if ds.len() > 0 && all_digits(ds) {
            Some(if t[0] == '-' { -digits_value(ds) } else { digits_value(ds) })
        } else {
            None
        }
    } else if t.len() > 0 && all_digits(t) {
        Some(digits_value(t))
    } else {
        None
    }
}

/// The 64-bit integer a token denotes, if it denotes one in range.
pub open spec fn token_value(t: Seq<char>) -> Option<i64> {
    match int_value(t) {
        Some(v) => if i64::MIN <= v <= i64::MAX {
            Some(v as i64)
        } else {
            None
        },
        None => None,
    }
}

pub open spec fn is_line_end(c: char) -> bool {
    c == '\n' || c == '\r'
}

/// `t` with every line-feed and carriage-return character removed.
pub open spec fn strip_line_ends(t: Seq<char>) -> Seq<char>
    decreases t.len(),
{
    if t.len() == 0 {
        t
    } else if is_line_end(t.last()) {
        strip_line_ends(t.drop_last())
    } else {
        strip_line_ends(t.drop_last()).push(t.last())
    }
}

/// Prepends `p` to the first of a non-empty list of fields.
pub open spec fn extend_first(p: Seq<char>, fs: Seq<Seq<char>>) -> Seq<Seq<char>> {
    fs.update(0, p + fs[0])
}

/// The fields of `s` between occurrences of `sep`; there is always at least one.
pub open spec fn fields(s: Seq<char>, sep: char) -> Seq<Seq<char>>
    decreases s.len(),
{
    if s.len() == 0 {
        seq![Seq::<char>::empty()]
    } else if s[0] == sep {
        seq![Seq::<char>::empty()] + fields(s.drop_first(), sep)
    } else {
        extend_first(seq![s[0]], fields(s.drop_first(), sep))
    }
}

/// The parts written one after another with `sep` between neighbours.
pub open spec fn join(parts: Seq<Seq<char>>, sep: Seq<char>) -> Seq<char>
    decreases parts.len(),
{
    if parts.len() == 0 {
        Seq::empty()
    } else if parts.len() == 1 {
        parts[0]
    } else {
        parts[0] + sep + join(parts.drop_first(), sep)
    }
}

/// The decimal notation of each value.
pub open spec fn decimals(xs: Seq<i64>) -> Seq<Seq<char>> {
    xs.map_values(|x: i64| decimal(x as int))
}

pub proof fn lemma_fields_nonempty(s: Seq<char>, sep: char)
    ensures
        fields(s, sep).len() >= 1,
    decreases s.len(),
{
    if s.len() > 0 {
        lemma_fields_nonempty(s.drop_first(), sep);
    }
}

/// Fields of a concatenation whose first part holds no separator.
pub proof fn lemma_fields_prefix(a: Seq<char>, t: Seq<char>, sep: char)
    requires
        !a.contains(sep),
    ensures
        fields(a + t, sep) == extend_first(a, fields(t, sep)),
    decreases a.len(),
{
    lemma_fields_nonempty(t, sep);
    if a.len() == 0 {
        assert(a + t =~= t);
        assert(fields(t, sep) =~= extend_first(a, fields(t, sep))) by {
            assert(a + fields(t, sep)[0] =~= fields(t, sep)[0]);
        }
    } else {
        let rest = a.drop_first();
        assert(!rest.contains(sep)) by {
            if rest.contains(sep) {
                let k = choose|k: int| 0 <= k < rest.len() && rest[k] == sep;
                assert(a[k + 1] == sep);
            }
        }
        assert((a + t).drop_first() =~= rest + t);
        assert(a[0] != sep) by {
            if a[0] == sep {
                assert(a.contains(sep));
            }
        }
        lemma_fields_prefix(rest, t, sep);
        lemma_fields_nonempty(rest + t, sep);
        assert(seq![a[0]] + (rest + fields(t, sep)[0]) =~= a + fields(t, sep)[0]);
        assert(fields(a + t, sep) =~= extend_first(a, fields(t, sep)));
    }
}

pub proof fn lemma_digits_of(n: nat)
    ensures
        digits_of(n).len() >= 1,
        all_digits(digits_of(n)),
        digits_value(digits_of(n)) == n,
        digits_of(n)[0] != '-' && digits_of(n)[0] != '+',
    decreases n,
{
    if n >= 10 {
        lemma_digits_of(n / 10);
        let d = digits_of(n);
        assert(d.drop_last() =~= digits_of(n / 10));
        assert(digit_value(d.last()) == n % 10);
        assert(n == (n / 10) * 10 + n % 10);
        assert(digits_value(d) == digits_value(d.drop_last()) * 10 + digit_value(d.last()));
    } else {
        let d = digits_of(n);
        assert(d.drop_last() =~= Seq::<char>::empty());
        assert(digit_value(d.last()) == n);
        assert(digits_value(d) == digits_value(d.drop_last()) * 10 + digit_value(d.last()));
    }
}

/// A decimal notation reads back as its value.
pub proof fn lemma_decimal_value(n: int)
    ensures
        int_value(decimal(n)) == Some(n),
        decimal(n).len() >= 1,
        forall|i: int| 0 <= i < decimal(n).len() ==> (is_digit(#[trigger] decimal(n)[i]) || decimal(n)[i] == '-'),
{
    if n < 0 {
        lemma_digits_of((-n) as nat);
        assert(decimal(n).drop_first() =~= digits_of((-n) as nat));
    } else {
        lemma_digits_of(n as nat);
    }
}

pub proof fn lemma_no_line_ends(t: Seq<char>)
    requires
        forall|i: int| 0 <= i < t.len() ==> !is_line_end(#[trigger] t[i]),
    ensures
        strip_line_ends(t) == t,
    decreases t.len(),
{
    if t.len() > 0 {
        lemma_no_line_ends(t.drop_last());
        assert(t.drop_last().push(t.last()) =~= t);
    }
}

/// Joining decimal notations with a separator that none holds, then splitting,
/// gives the notations back.
pub proof fn lemma_fields_join(parts: Seq<Seq<char>>, sep: char)
    requires
        parts.len() >= 1,
        forall|i: int| 0 <= i < parts.len() ==> !(#[trigger] parts[i]).contains(sep),
    ensures
        fields(join(parts, seq![sep]), sep) == parts,
    decreases parts.len(),
{
    let first = parts[0];
    if parts.len() == 1 {
        lemma_fields_prefix(first, Seq::empty(), sep);
        assert(first + Seq::<char>::empty() =~= first);
        assert(extend_first(first, fields(Seq::empty(), sep)) =~= parts);
    } else {
        let rest = parts.drop_first();
        assert forall|i: int| 0 <= i < rest.len() implies !(#[trigger] rest[i]).contains(sep) by {
            assert(rest[i] == parts[i + 1]);
        }
        lemma_fields_join(rest, sep);
        let tail = seq![sep] + join(rest, seq![sep]);
        assert(join(parts, seq![sep]) =~= first + tail);
        lemma_fields_prefix(first, tail, sep);
        assert(tail.drop_first() =~= join(rest, seq![sep]));
        assert(fields(tail, sep) =~= seq![Seq::<char>::empty()] + rest);
        assert(first + Seq::<char>::empty() =~= first);
        assert(extend_first(first, fields(tail, sep)) =~= parts);
    }
}

/// Appending one more part to a non-empty join.
pub proof fn lemma_join_push(parts: Seq<Seq<char>>, p: Seq<char>, sep: Seq<char>)
    requires
        parts.len() >= 1,
    ensures
        join(parts.push(p), sep) == join(parts, sep) + sep + p,
    decreases parts.len(),
{
    let longer = parts.push(p);
    assert(longer[0] == parts[0]);
    assert(longer.drop_first().len() >= 1);
    if parts.len() == 1 {
        assert(longer.drop_first() =~= seq![p]);
        assert(join(seq![p], sep) == p);
        assert(join(parts, sep) == parts[0]);
    } else {
        lemma_join_push(parts.drop_first(), p, sep);
        assert(longer.drop_first() =~= parts.drop_first().push(p));
        assert(join(parts, sep) == parts[0] + sep + join(parts.drop_first(), sep));
        assert(parts[0] + sep + (join(parts.drop_first(), sep) + sep + p) =~= parts[0] + sep
            + join(parts.drop_first(), sep) + sep + p);
    }
}

/// Decimal notations joined by a separator that is neither a digit nor a minus
/// sign split back into the notations, and each reads as its value.
pub proof fn lemma_split_decimals(values: Seq<i64>, sep: char)
    requires
        values.len() >= 1,
        !is_digit(sep),
        sep != '-',
    ensures
        fields(join(decimals(values), seq![sep]), sep) == decimals(values),
        forall|i: int|
            0 <= i < values.len() ==> token_value(#[trigger] decimals(values)[i]) == Some(values[i]),
        forall|i: int, k: int|
            0 <= i < values.len() && 0 <= k < decimals(values)[i].len() ==> (is_digit(
                #[trigger] decimals(values)[i][k],
            ) || decimals(values)[i][k] == '-'),
{
    let parts = decimals(values);
    assert forall|i: int, k: int|
        0 <= i < values.len() && 0 <= k < parts[i].len() implies (is_digit(#[trigger] parts[i][k])
        || parts[i][k] == '-') by {
        lemma_decimal_value(values[i] as int);
    }
    assert forall|i: int| 0 <= i < parts.len() implies !(#[trigger] parts[i]).contains(sep) by {
        if parts[i].contains(sep) {
            let k = choose|k: int| 0 <= k < parts[i].len() && parts[i][k] == sep;
            assert(is_digit(parts[i][k]) || parts[i][k] == '-');
        }
    }
    lemma_fields_join(parts, sep);
    assert forall|i: int| 0 <= i < values.len() implies token_value(#[trigger] parts[i]) == Some(
        values[i],
    ) by {
        lemma_decimal_value(values[i] as int);
    }
}

/// A text of a single digit `0 <= d < 10`.
fn digit_text(d: u64) -> (r: &'static str)
    requires
        d < 10,
    ensures
        r@ == seq![digit_char(d as int)],
{
    proof {
        reveal_strlit("0");
        reveal_strlit("1");
        reveal_strlit("2");
        reveal_strlit("3");
        reveal_strlit("4");
        reveal_strlit("5");
        reveal_strlit("6");
        reveal_strlit("7");
        reveal_strlit("8");
        reveal_strlit("9");
    }
    let r = if d == 0 {
        "0"
    } else if d == 1 {
        "1"
    } else if d == 2 {
        "2"
    } else if d == 3 {
        "3"
    } else if d == 4 {
        "4"
    } else if d == 5 {
        "5"
    } else if d == 6 {
        "6"
    } else if d == 7 {
        "7"
    } else if d == 8 {
        "8"
    } else {
        "9"
    };
    assert(r@ =~= seq![digit_char(d as int)]);
    r
}

/// The digit characters of `low`, read from its last element to its first.
pub open spec fn reversed_digits(low: Seq<u64>) -> Seq<char>
    decreases low.len(),
{
    if low.len() == 0 {
        Seq::empty()
    } else {
        seq![digit_char(low.last() as int)] + reversed_digits(low.drop_last())
    }
}

/// Appends the digits of `n` to `out`.
pub fn push_digits(out: &mut String, n: u64)
    ensures
        final(out)@ == old(out)@ + digits_of(n as nat),
{
    let mut low: Vec<u64> = Vec::new();
    let mut q: u64 = n;
    while q >= 10
        invariant
            digits_of(n as nat) == digits_of(q as nat) + reversed_digits(low@),
            forall|k: int| 0 <= k < low.len() ==> #[trigger] low[k] < 10,
        decreases q,
    {
        let d = q % 10;
        proof {
            assert(digits_of(q as nat) == digits_of((q / 10) as nat).push(digit_char(d as int)));
            assert(low@.push(d).drop_last() =~= low@);
            assert(digits_of((q / 10) as nat).push(digit_char(d as int)) + reversed_digits(low@)
                =~= digits_of((q / 10) as nat) + reversed_digits(low@.push(d)));
        }
        low.push(d);
        q = q / 10;
    }
    let ghost start = out@;
    out.append(digit_text(q));
    assert(digits_of(q as nat) == seq![digit_char(q as int)]);
    let mut k: usize = low.len();
    assert(low@.take(k as int) =~= low@);
    while k > 0
        invariant
            k <= low.len(),
            forall|j: int| 0 <= j < low.len() ==> #[trigger] low[j] < 10,
            out@ + reversed_digits(low@.take(k as int)) == start + digits_of(n as nat),
        decreases k,
    {
        let ghost before = out@;
        proof {
            assert(low@.take(k as int).drop_last() =~= low@.take(k - 1));
            assert(before + reversed_digits(low@.take(k as int)) =~= before + seq![
                digit_char(low[k - 1] as int),
            ] + reversed_digits(low@.take(k - 1)));
        }
        out.append(digit_text(low[k - 1]));
        k = k - 1;
    }
    assert(out@ + reversed_digits(low@.take(0)) =~= out@);
}

/// Appends the decimal notation of `n` to `out`.
pub fn push_decimal(out: &mut String, n: i64)
    ensures
        final(out)@ == old(out)@ + decimal(n as int),
{
    if n < 0 {
        proof {
            reveal_strlit("-");
        }
        out.append("-");
        let magnitude: u64 = ((-(n + 1)) as u64) + 1;
        push_digits(out, magnitude);
        assert(old(out)@ + seq!['-'] + digits_of(magnitude as nat) =~= old(out)@ + decimal(n as int));
    } else {
        push_digits(out, n as u64);
    }
}

/// Appends the parts written one after another with `sep` between neighbours.
pub fn push_joined(out: &mut String, values: &[i64], sep: &str)
    ensures
        final(out)@ == old(out)@ + join(decimals(values@), sep@),
{
    let ghost start = out@;
    let mut i: usize = 0;
    while i < values.len()
        invariant
            i <= values.len(),
            out@ == start + join(decimals(values@.take(i as int)), sep@),
        decreases values.len() - i,
    {
        let ghost before = out@;
        if i > 0 {
            out.append(sep);
        }
        push_decimal(out, values[i]);
        proof {
            let done = decimals(values@.take(i as int));
            assert(decimals(values@.take(i + 1)) =~= done.push(decimal(values[i as int] as int)));
            if i == 0 {
                assert(decimals(values@.take(1)) =~= seq![decimal(values[0] as int)]);
            } else {
                lemma_join_push(done, decimal(values[i as int] as int), sep@);
            }
        }
        i = i + 1;
    }
    assert(values@.take(values.len() as int) =~= values@);
}

} // verus!
