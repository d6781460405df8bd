use vstd::prelude::*;
use vstd::string::StrSliceExecFns;
use crate::error::LayoutError;

verus! {

/// The `/`-separated fields of `s`, from left to right; `s` without `/` is one field.
pub open spec fn fields(s: Seq<char>) -> Seq<Seq<char>>
    decreases s.len(),
{
    if s.len() == 0 {
        seq![Seq::empty()]
    } else {
        let f = fields(s.drop_last());
        if s.last() == '/' {
            f.push(Seq::empty())
        } else {
            f.update(f.len() - 1, f.last().push(s.last()))
        }
    }
}

/// A decimal digit, `0` to `9`.
pub open spec fn is_digit(c: char) -> bool {
    '0' <= c <= '9'
}

/// The decimal value of a run of digits.
pub open spec fn digits_value(d: Seq<char>) -> int
    decreases d.len(),
{
    if d.len() == 0 {
        0
    } else {
        digits_value(d.drop_last()) * 10 + (d.last() as int - '0' as int)
    }
}

/// A field is one or more decimal digits whose value fits in 32 bits.
pub open spec fn number_field(d: Seq<char>) -> bool {
    &&& d.len() > 0
    &&& forall|i: int| 0 <= i < d.len() ==> is_digit(#[trigger] d[i])
    &&& digits_value(d) <= u32::MAX
}

/// The numbers of an area string such as `"0/6/0/6"`, or `None` when a field is not a
/// 32-bit decimal number.
pub open spec fn area_numbers(s: Seq<char>) -> Option<Seq<u32>> {
    if forall|k: int| 0 <= k < fields(s).len() ==> number_field(#[trigger] fields(s)[k]) {
        Some(fields(s).map_values(|d: Seq<char>| digits_value(d) as u32))
    } else {
        None
    }
}

proof fn lemma_fields_nonempty(s: Seq<char>)
    ensures
        fields(s).len() >= 1,
    decreases s.len(),
{
    if s.len() > 0 {
        lemma_fields_nonempty(s.drop_last());
    }
}

/// Appending digits never lowers a value.
proof fn lemma_value_grows(d: Seq<char>, e: Seq<char>)
    requires
        forall|i: int| 0 <= i < (d + e).len() ==> is_digit(#[trigger] (d + e)[i]),
    ensures
        digits_value(d + e) >= digits_value(d) >= 0,
    decreases e.len(),
{
    if e.len() == 0 {
        assert(d + e =~= d);
        lemma_value_nonnegative(d);
    } else {
        let e0 = e.drop_last();
        assert((d + e).drop_last() =~= d + e0);
        assert forall|i: int| 0 <= i < (d + e0).len() implies is_digit(#[trigger] (d + e0)[i]) by {
            assert((d + e0)[i] == (d + e)[i]);
        }
        lemma_value_grows(d, e0);
        assert((d + e).last() == (d + e)[(d + e).len() - 1]);
    }
}

proof fn lemma_value_nonnegative(d: Seq<char>)
    requires
        forall|i: int| 0 <= i < d.len() ==> is_digit(#[trigger] d[i]),
    ensures
        digits_value(d) >= 0,
    decreases d.len(),
{
    if d.len() > 0 {
        assert forall|i: int| 0 <= i < d.drop_last().len() implies is_digit(
            #[trigger] d.drop_last()[i],
        ) by {
            assert(d.drop_last()[i] == d[i]);
        }
        lemma_value_nonnegative(d.drop_last());
        assert(d.last() == d[d.len() - 1]);
    }
}

/// Extending a string keeps its completed fields and extends its last one.
proof fn lemma_fields_extend(s: Seq<char>, m: int)
    requires
        0 <= m <= s.len(),
    ensures
        ({
            let p = fields(s.subrange(0, m));
            let f = fields(s);
            &&& p.len() <= f.len()
            &&& forall|k: int| 0 <= k < p.len() - 1 ==> #[trigger] f[k] == p[k]
            &&& exists|e: Seq<char>| f[p.len() - 1] == p.last() + e
        }),
    decreases s.len(),
{
    lemma_fields_nonempty(s.subrange(0, m));
    lemma_fields_nonempty(s);
    if m == s.len() {
        assert(s.subrange(0, m) =~= s);
        let f = fields(s);
        assert(f[f.len() - 1] =~= f.last() + Seq::<char>::empty());
    } else {
        let t = s.drop_last();
        assert(t.subrange(0, m) =~= s.subrange(0, m));
        lemma_fields_extend(t, m);
        lemma_fields_nonempty(t);
        let p = fields(s.subrange(0, m));
        let g = fields(t);
        let f = fields(s);
        let e = choose|e: Seq<char>| g[p.len() - 1] == p.last() + e;
        if s.last() == '/' {
            assert(f == g.push(Seq::empty()));
            assert(f[p.len() - 1] == g[p.len() - 1]);
        } else {
            assert(f == g.update(g.len() - 1, g.last().push(s.last())));
            if p.len() - 1 == g.len() - 1 {
                assert(f[p.len() - 1] =~= p.last() + e.push(s.last()));
            } else {
                assert(f[p.len() - 1] == g[p.len() - 1]);
            }
        }
    }
}

/// Some field of `s` is not a 32-bit decimal number once the prefix `s[..m]` already
/// shows that its field at `k` is not one and cannot become one.
proof fn lemma_bad_field(s: Seq<char>, m: int, k: int)
    requires
        0 <= m <= s.len(),
        0 <= k < fields(s.subrange(0, m)).len(),
        k < fields(s.subrange(0, m)).len() - 1 ==> !number_field(fields(s.subrange(0, m))[k]),
        k == fields(s.subrange(0, m)).len() - 1 ==> {
            let d = fields(s.subrange(0, m))[k];
            (exists|j: int| 0 <= j < d.len() && !is_digit(#[trigger] d[j])) || ((forall|j: int|
                0 <= j < d.len() ==> is_digit(#[trigger] d[j])) && digits_value(d) > u32::MAX)
        },
    ensures
        area_numbers(s) is None,
{
    lemma_fields_extend(s, m);
    let p = fields(s.subrange(0, m));
    let f = fields(s);
    if k < p.len() - 1 {
        assert(f[k] == p[k]);
        assert(!number_field(f[k]));
    } else {
        let e = choose|e: Seq<char>| f[p.len() - 1] == p.last() + e;
        let d = p.last();
        let full = f[k];
        assert(full == d + e);
        if exists|j: int| 0 <= j < d.len() && !is_digit(#[trigger] d[j]) {
            let j = choose|j: int| 0 <= j < d.len() && !is_digit(#[trigger] d[j]);
            assert(full[j] == d[j]);
        } else if forall|j: int| 0 <= j < full.len() ==> is_digit(#[trigger] full[j]) {
            lemma_value_grows(d, e);
        }
        assert(!number_field(full));
    }
}

/// Splits an area string such as `"0/6/0/6"` into its numbers. Fails with
/// `MalformedArea` when a `/`-separated field is empty, holds a character other than a
/// decimal digit, or does not fit in 32 bits.
pub fn convert_to_number(path: &str) -> (r: Result<Vec<u32>, LayoutError>)
    ensures
        match area_numbers(path@) {
            Some(ns) => r matches Ok(v) && v@ == ns,
            None => r == Err::<Vec<u32>, LayoutError>(LayoutError::MalformedArea),
        },
{
    let n = path.unicode_len();
    let ghost s = path@;
    let mut done: Vec<u32> = Vec::new();
    let mut cur: u64 = 0;
    let mut cur_len: usize = 0;
    let mut i: usize = 0;
    proof {
        assert(s.subrange(0, 0) =~= Seq::<char>::empty());
    }
    while i < n
        invariant
            n == s.len(),
            s == path@,
            i <= n,
            fields(s.subrange(0, i as int)).len() == done@.len() + 1,
            forall|k: int|
                0 <= k < done@.len() ==> number_field(#[trigger] fields(s.subrange(0, i as int))[k])
                    && done@[k] == digits_value(fields(s.subrange(0, i as int))[k]),
            forall|j: int|
                0 <= j < fields(s.subrange(0, i as int)).last().len() ==> is_digit(
                    #[trigger] fields(s.subrange(0, i as int)).last()[j],
                ),
            cur == digits_value(fields(s.subrange(0, i as int)).last()),
            cur <= u32::MAX,
            cur_len <= i,
            cur_len == fields(s.subrange(0, i as int)).last().len(),
        decreases n - i,
    {
        let c = path.get_char(i);
        let ghost f = fields(s.subrange(0, i as int));
        let ghost next = s.subrange(0, i + 1);
        proof {
            assert(next.drop_last() =~= s.subrange(0, i as int));
            assert(next.last() == c);
        }
        if c == '/' {
            if cur_len == 0 {
                proof {
                    assert(fields(next) == f.push(Seq::empty()));
                    lemma_bad_field(s, i + 1, done@.len() as int);
                }
                return Err(LayoutError::MalformedArea);
            }
            proof {
                assert(fields(next) == f.push(Seq::empty()));
                lemma_value_nonnegative(f.last());
            }
            done.push(cur as u32);
            cur = 0;
            cur_len = 0;
        } else if '0' <= c && c <= '9' {
            let digit = (c as u32 - '0' as u32) as u64;
            let value = cur * 10 + digit;
            proof {
                let d = f.last().push(c);
                assert(fields(next) == f.update(f.len() - 1, d));
                assert(d.drop_last() =~= f.last());
                assert(digits_value(d) == value);
                assert forall|j: int| 0 <= j < d.len() implies is_digit(#[trigger] d[j]) by {
                    if j < f.last().len() {
                        assert(d[j] == f.last()[j]);
                    }
                }
            }
            if value > u32::MAX as u64 {
                proof {
                    lemma_bad_field(s, i + 1, done@.len() as int);
                }
                return Err(LayoutError::MalformedArea);
            }
            cur = value;
            cur_len = cur_len + 1;
        } else {
            proof {
                let d = f.last().push(c);
                assert(fields(next) == f.update(f.len() - 1, d));
                assert(!is_digit(d[d.len() - 1]));
                lemma_bad_field(s, i + 1, done@.len() as int);
            }
            return Err(LayoutError::MalformedArea);
        }
        i = i + 1;
    }
    proof {
        assert(s.subrange(0, n as int) =~= s);
    }
    if cur_len == 0 {
        proof {
            let f = fields(s);
            assert(!number_field(f[f.len() - 1]));
        }
        return Err(LayoutError::MalformedArea);
    }
    proof {
        lemma_value_nonnegative(fields(s).last());
    }
    done.push(cur as u32);
    proof {
        let f = fields(s);
        assert forall|k: int| 0 <= k < f.len() implies number_field(#[trigger] f[k]) by {
            if k < f.len() - 1 {
                assert(number_field(f[k]));
            }
        }
        assert(done@ =~= f.map_values(|d: Seq<char>| digits_value(d) as u32));
    }
    Ok(done)
}

} // verus!
