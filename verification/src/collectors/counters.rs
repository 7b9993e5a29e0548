//! Lines of counters, as the kernel's tables have them.

use vstd::prelude::*;

use crate::error::{Error, ErrorView};
use crate::number::{decimal, decimal_string, parse_of, parse_u64};
use crate::sysfs::{quoted, sanitized, show};
use crate::text::{first_of, slices, text4};

verus! {

pub open spec fn bad_field(path: Seq<char>, line_no: usize, idx: nat, field: Seq<char>) -> ErrorView {
    ErrorView::Parse {
        path,
        line: Some(line_no),
        reason: "counter field "@ + decimal(idx + 1) + " is not an unsigned integer: "@ + quoted(
            sanitized(field, 32),
        ),
    }
}

/// The numbers that `fields` write, of which the first stands at `idx`; the
/// first that is none is an error.
pub open spec fn numbers(path: Seq<char>, line_no: usize, idx: nat, fields: Seq<Seq<char>>) -> Result<
    Seq<u64>,
    ErrorView,
>
    decreases fields.len(),
{
    if fields.len() == 0 {
        Ok(seq![])
    } else {
        match parse_of(fields[0], 10, u64::MAX as nat) {
            None => Err(bad_field(path, line_no, idx, fields[0])),
            Some(n) => match numbers(path, line_no, idx + 1, fields.drop_first()) {
                Err(e) => Err(e),
                Ok(rest) => Ok(seq![n as u64] + rest),
            },
        }
    }
}

/// Exactly `want` counters: what stands behind them is left alone, and too
/// few are an error.
pub open spec fn counters_of(
    path: Seq<char>,
    line_no: usize,
    fields: Seq<Seq<char>>,
    want: nat,
) -> Result<Seq<u64>, ErrorView> {
    match numbers(path, line_no, 0, first_of(fields, want)) {
        Err(e) => Err(e),
        Ok(v) => if v.len() < want {
            Err(
                ErrorView::Parse {
                    path,
                    line: Some(line_no),
                    reason: "expected "@ + decimal(want) + " counter fields, got "@ + decimal(
                        v.len(),
                    ),
                },
            )
        } else {
            Ok(v)
        },
    }
}

/// As many numbers come out as fields go in.
pub proof fn lemma_numbers_len(path: Seq<char>, line_no: usize, idx: nat, fields: Seq<Seq<char>>)
    ensures
        numbers(path, line_no, idx, fields) matches Ok(v) ==> v.len() == fields.len(),
    decreases fields.len(),
{
    if fields.len() > 0 {
        lemma_numbers_len(path, line_no, idx + 1, fields.drop_first());
    }
}

pub open spec fn counters_view(r: Result<Vec<u64>, Error>) -> Result<Seq<u64>, ErrorView> {
    match r {
        Ok(v) => Ok(v@),
        Err(e) => Err(e@),
    }
}

/// Reads exactly `want` counters out of `fields`, from `from` on.
pub fn read_counters(
    path: &str,
    line_no: usize,
    fields: &Vec<&[char]>,
    from: usize,
    want: usize,
) -> (r: Result<Vec<u64>, Error>)
    requires
        from <= fields.len(),
    ensures
        counters_view(r) == counters_of(
            path@,
            line_no,
            slices(fields@).skip(from as int),
            want as nat,
        ),
        r is Ok ==> r->Ok_0@.len() == want,
{
    let ghost all = first_of(slices(fields@).skip(from as int), want as nat);
    let n: usize = if fields.len() - from < want {
        fields.len() - from
    } else {
        want
    };
    let mut values: Vec<u64> = Vec::new();
    let mut i: usize = 0;
    assert(all.skip(0) == all);
    while i < n
        invariant
            i <= n <= want,
            n == all.len(),
            from + n <= fields.len(),
            values@.len() == i,
            all == first_of(slices(fields@).skip(from as int), want as nat),
            numbers(path@, line_no, 0, all) == match numbers(
                path@,
                line_no,
                i as nat,
                all.skip(i as int),
            ) {
                Ok(rest) => Ok::<Seq<u64>, ErrorView>(values@ + rest),
                Err(e) => Err(e),
            },
        decreases n - i,
    {
        let field: &[char] = fields[from + i];
        let ghost rest = all.skip(i as int);
        assert(rest[0] == field@);
        assert(rest.drop_first() == all.skip(i + 1));
        match parse_u64(field) {
            None => {
                let shown = show(field, 32);
                let k = decimal_string(i as u64 + 1);
                return Err(
                    Error::parse(
                        path,
                        Some(line_no),
                        text4(
                            "counter field ",
                            k.as_str(),
                            " is not an unsigned integer: ",
                            shown.as_str(),
                        ),
                    ),
                );
            },
            Some(v) => {
                let ghost before = values@;
                values.push(v);
                proof {
                    match numbers(path@, line_no, (i + 1) as nat, all.skip(i + 1)) {
                        Ok(more) => {
                            assert(before.push(v) + more == before + (seq![v] + more));
                        },
                        Err(_) => {},
                    }
                }
            },
        }
        i = i + 1;
    }
    assert(all.skip(i as int) == Seq::<Seq<char>>::empty());
    assert(values@ + Seq::<u64>::empty() == values@);
    if values.len() < want {
        let wanted = decimal_string(want as u64);
        let got = decimal_string(values.len() as u64);
        return Err(
            Error::parse(
                path,
                Some(line_no),
                text4("expected ", wanted.as_str(), " counter fields, got ", got.as_str()),
            ),
        );
    }
    Ok(values)
}

} // verus!
