//! Reading a program or an input list: comma-separated signed integers.
use vstd::prelude::*;
use vstd::string::*;

use crate::error::Error;
use crate::text::{
    all_digits, decimals, digits_value, extend_first, fields, is_digit, is_line_end, join,
    lemma_fields_nonempty, lemma_no_line_ends, lemma_split_decimals, push_joined, strip_line_ends,
    token_value,
};

verus! {

/// Whether a comma-separated field, line ends removed, denotes an `i64`.
pub open spec fn field_ok(f: Seq<char>) -> bool {
    token_value(strip_line_ends(f)) is Some
}

/// Whether the text `s` reads as exactly the values `values`.
pub open spec fn loads_to(s: Seq<char>, values: Seq<i64>) -> bool {
    let fs = fields(s, ',');
    &&& fs.len() == values.len()
    &&& forall|i: int|
        0 <= i < fs.len() ==> token_value(strip_line_ends(#[trigger] fs[i])) == Some(values[i])
}

/// The values written in canonical decimal notation, separated by commas.
pub open spec fn rendered(values: Seq<i64>) -> Seq<char> {
    join(decimals(values), seq![','])
}

fn chars_of(s: &str) -> (v: Vec<char>)
    ensures
        v@ == s@,
{
    let mut v: Vec<char> = Vec::new();
    for c in it: s.chars()
        invariant
            it.seq() == s@,
            v@ == s@.take(it.index() as int),
    {
        v.push(c);
        assert(v@ =~= s@.take(it.index() as int + 1));
    }
    assert(v@ =~= s@);
    v
}

/// Digit strings only grow in value as digits are added.
proof fn lemma_digits_value_prefix(ds: Seq<char>, k: int)
    requires
        all_digits(ds),
        0 <= k <= ds.len(),
    ensures
        0 <= digits_value(ds.take(k)) <= digits_value(ds),
    decreases ds.len(),
{
    if ds.len() > 0 {
        let shorter = ds.drop_last();
        assert(all_digits(shorter)) by {
            assert forall|i: int| 0 <= i < shorter.len() implies is_digit(#[trigger] shorter[i]) by {
                assert(shorter[i] == ds[i]);
            }
        }
        assert(is_digit(ds[ds.len() - 1]));
        if k == ds.len() {
            assert(ds.take(k) =~= ds);
            lemma_digits_value_prefix(shorter, shorter.len() as int);
            assert(shorter.take(shorter.len() as int) =~= shorter);
        } else {
            lemma_digits_value_prefix(shorter, k);
            assert(shorter.take(k) =~= ds.take(k));
            lemma_digits_value_prefix(shorter, shorter.len() as int);
            assert(shorter.take(shorter.len() as int) =~= shorter);
        }
    }
}

/// The value of a token that has no line ends left in it.
#[verifier::loop_isolation(false)]
fn token_of(t: &Vec<char>) -> (r: Option<i64>)
    ensures
        r == token_value(t@),
{
    let n = t.len();
    if n == 0 {
        return None;
    }
    let negative = t[0] == '-';
    let first: usize = if t[0] == '-' || t[0] == '+' {
        1
    } else {
        0
    };
    if first == n {
        return None;
    }
    let ghost ds = t@.subrange(first as int, n as int);
    assert(first == 1 ==> ds =~= t@.drop_first());
    assert(first == 0 ==> ds =~= t@);
    let mut acc: i64 = 0;
    let mut k: usize = first;
    while k < n
        invariant
            first <= k <= n,
            n == t.len(),
            ds == t@.subrange(first as int, n as int),
            all_digits(ds.take(k - first)),
            acc == (if negative {
                -digits_value(ds.take(k - first))
            } else {
                digits_value(ds.take(k - first))
            }),
        decreases n - k,
    {
        let c = t[k];
        let prefix = Ghost(ds.take(k - first));
        let longer = Ghost(ds.take(k - first + 1));
        assert(longer@.drop_last() =~= prefix@);
        assert(longer@.last() == c);
        if !('0' <= c && c <= '9') {
            assert(ds[k - first] == c);
            assert(!all_digits(ds));
            return None;
        }
        let d: i64 = (c as u32) as i64 - 48;
        assert(digits_value(longer@) == digits_value(prefix@) * 10 + d);
        assert(all_digits(longer@)) by {
            assert forall|i: int| 0 <= i < longer@.len() implies is_digit(#[trigger] longer@[i]) by {
                if i < prefix@.len() {
                    assert(longer@[i] == prefix@[i]);
                }
            }
        }
        let step = if negative {
            match acc.checked_mul(10) {
                Some(x) => x.checked_sub(d),
                None => None,
            }
        } else {
            match acc.checked_mul(10) {
                Some(x) => x.checked_add(d),
                None => None,
            }
        };
        match step {
            Some(x) => {
                acc = x;
            },
            None => {
                proof {
                    if all_digits(ds) {
                        lemma_digits_value_prefix(ds, k - first + 1);
                    }
                }
                return None;
            },
        }
        k = k + 1;
    }
    assert(ds.take(n - first) =~= ds);
    Some(acc)
}

/// The value of the characters `start..end` of `chars`, line ends removed.
fn field_value(chars: &Vec<char>, start: usize, end: usize) -> (r: Option<i64>)
    requires
        start <= end <= chars.len(),
    ensures
        r == token_value(strip_line_ends(chars@.subrange(start as int, end as int))),
{
    let mut t: Vec<char> = Vec::new();
    let mut k: usize = start;
    while k < end
        invariant
            start <= k <= end <= chars.len(),
            t@ == strip_line_ends(chars@.subrange(start as int, k as int)),
        decreases end - k,
    {
        let c = chars[k];
        assert(chars@.subrange(start as int, k + 1).drop_last() =~= chars@.subrange(
            start as int,
            k as int,
        ));
        if c != '\n' && c != '\r' {
            t.push(c);
        }
        k = k + 1;
    }
    token_of(&t)
}

/// Splits `input` at commas, removes line-feed and carriage-return characters
/// from each token, and reads each token as an `i64`. The first token that is
/// not an integer is reported with its text and its index among the tokens.
pub fn parse(input: &str) -> (r: Result<Vec<i64>, Error>)
    ensures
        match r {
            Ok(values) => loads_to(input@, values@),
            Err(e) => e matches Error::InvalidInput { token, position } && {
                let fs = fields(input@, ',');
                &&& position < fs.len()
                &&& token@ == fs[position as int]
                &&& !field_ok(fs[position as int])
                &&& forall|j: int| 0 <= j < position ==> field_ok(#[trigger] fs[j])
            },
        },
{
    let chars = chars_of(input);
    let ghost s = input@;
    let mut values: Vec<i64> = Vec::new();
    let ghost mut done: Seq<Seq<char>> = Seq::empty();
    let mut start: usize = 0;
    let mut i: usize = 0;
    proof {
        lemma_fields_nonempty(s, ',');
        assert(chars@.skip(0) =~= s);
        assert(chars@.subrange(0, 0) + fields(s, ',')[0] =~= fields(s, ',')[0]);
        assert(done + extend_first(chars@.subrange(0, 0), fields(s, ',')) =~= fields(s, ','));
    }
    while i < chars.len()
        invariant
            chars@ == s,
            s == input@,
            start <= i <= chars.len(),
            fields(s, ',') == done + extend_first(
                chars@.subrange(start as int, i as int),
                fields(chars@.skip(i as int), ','),
            ),
            done.len() == values.len(),
            forall|k: int|
                0 <= k < done.len() ==> token_value(strip_line_ends(#[trigger] done[k])) == Some(
                    values[k],
                ),
        decreases chars.len() - i,
    {
        let ghost current = chars@.subrange(start as int, i as int);
        let ghost rest = fields(chars@.skip(i + 1), ',');
        proof {
            lemma_fields_nonempty(chars@.skip(i + 1), ',');
            assert(chars@.skip(i as int).drop_first() =~= chars@.skip(i + 1));
        }
        if chars[i] == ',' {
            proof {
                assert(extend_first(current, seq![Seq::<char>::empty()] + rest) =~= seq![current]
                    + rest);
                assert(current + Seq::<char>::empty() =~= current);
            }
            match field_value(&chars, start, i) {
                None => {
                    proof {
                        assert(fields(s, ',') =~= done.push(current) + rest);
                        assert(fields(s, ',')[done.len() as int] == current);
                        assert forall|j: int| 0 <= j < done.len() implies field_ok(
                            #[trigger] fields(s, ',')[j],
                        ) by {
                            assert(fields(s, ',')[j] == done[j]);
                        }
                    }
                    let token = input.substring_char(start, i).to_owned();
                    return Err(Error::InvalidInput { token, position: values.len() });
                },
                Some(v) => {
                    values.push(v);
                },
            }
            proof {
                assert(Seq::<char>::empty() + rest[0] =~= rest[0]);
                assert(extend_first(Seq::<char>::empty(), rest) =~= rest);
                assert(chars@.subrange(i + 1, i + 1) =~= Seq::<char>::empty());
                assert(done + (seq![current] + rest) =~= done.push(current) + rest);
                done = done.push(current);
            }
            start = i + 1;
        } else {
            proof {
                let c = chars@[i as int];
                assert(chars@.subrange(start as int, i + 1) =~= current + seq![c]);
                assert(current + (seq![c] + rest[0]) =~= current + seq![c] + rest[0]);
                assert(extend_first(current, extend_first(seq![c], rest)) =~= extend_first(
                    current + seq![c],
                    rest,
                ));
            }
        }
        i = i + 1;
    }
    let ghost current = chars@.subrange(start as int, i as int);
    proof {
        assert(chars@.skip(i as int) =~= Seq::<char>::empty());
        assert(current + Seq::<char>::empty() =~= current);
        assert(fields(s, ',') =~= done.push(current));
    }
    match field_value(&chars, start, i) {
        None => {
            proof {
                assert forall|j: int| 0 <= j < done.len() implies field_ok(
                    #[trigger] fields(s, ',')[j],
                ) by {
                    assert(fields(s, ',')[j] == done[j]);
                }
            }
            let token = input.substring_char(start, i).to_owned();
            Err(Error::InvalidInput { token, position: values.len() })
        },
        Some(v) => {
            values.push(v);
            proof {
                assert forall|k: int| 0 <= k < fields(s, ',').len() implies token_value(
                    strip_line_ends(#[trigger] fields(s, ',')[k]),
                ) == Some(values@[k]) by {
                    if k < done.len() {
                        assert(fields(s, ',')[k] == done[k]);
                    }
                }
            }
            Ok(values)
        },
    }
}

/// The values in canonical decimal notation, separated by commas: text that
/// `parse` reads back as the same values.
pub fn render(values: &[i64]) -> (r: String)
    ensures
        r@ == rendered(values@),
{
    let mut r = String::new();
    proof {
        reveal_strlit(",");
    }
    push_joined(&mut r, values, ",");
    assert(","@ =~= seq![',']);
    r
}

/// Loading round-trips: any non-empty list of values, written in canonical
/// notation with commas between them, loads as exactly that list.
pub proof fn lemma_load_rendered(values: Seq<i64>)
    requires
        values.len() >= 1,
    ensures
        loads_to(rendered(values), values),
{
    let parts = decimals(values);
    lemma_split_decimals(values, ',');
    assert forall|i: int| 0 <= i < parts.len() implies token_value(
        strip_line_ends(#[trigger] parts[i]),
    ) == Some(values[i]) by {
        assert forall|k: int| 0 <= k < parts[i].len() implies !is_line_end(#[trigger] parts[i][k]) by {
            assert(is_digit(parts[i][k]) || parts[i][k] == '-');
        }
        lemma_no_line_ends(parts[i]);
    }
}

} // verus!
