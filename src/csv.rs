//! The tabular text of a family's records.
use vstd::prelude::*;
use vstd::string::StringExecFns;
use crate::results::{Record, TestResults};

verus! {

/// The character of the decimal digit `d`.
pub open spec fn digit_char(d: nat) -> char {
    if d == 0 {
        '0'
    } else if d == 1 {
        '1'
    } else if d == 2 {
        '2'
    } else if d == 3 {
        '3'
    } else if d == 4 {
        '4'
    } else if d == 5 {
        '5'
    } else if d == 6 {
        '6'
    } else if d == 7 {
        '7'
    } else if d == 8 {
        '8'
    } else {
        '9'
    }
}

/// The decimal numeral of `n`, without leading zeros.
pub open spec fn decimal(n: nat) -> Seq<char>
    decreases n,
{
    if n < 10 {
        seq![digit_char(n)]
    } else {
        decimal(n / 10).push(digit_char(n % 10))
    }
}

/// One line of the table: count, key size, value size and overhead.
pub open spec fn csv_row(r: Record) -> Seq<char> {
    decimal(r.0.0 as nat) + seq![','] + decimal(r.0.1 as nat) + seq![','] + decimal(
        r.0.2 as nat,
    ) + seq![','] + decimal(r.1 as nat) + seq!['\n']
}

/// The lines of the rows, in their order.
pub open spec fn csv_rows(rows: Seq<Record>) -> Seq<char>
    decreases rows.len(),
{
    if rows.len() == 0 {
        Seq::empty()
    } else {
        csv_rows(rows.drop_last()) + csv_row(rows.last())
    }
}

/// The header line.
pub open spec fn csv_header() -> Seq<char> {
    seq![
        'l', 'e', 'n', 'g', 't', 'h', ',', ' ', 'k', '_', 's', 'z', ',', ' ', 'v', '_', 's', 'z',
        ',', ' ', 'o', 'v', 'h', '_', 's', 'i', 'z', 'e', '\n',
    ]
}

/// The whole table: the header, then one line per row.
pub open spec fn csv_spec(rows: Seq<Record>) -> Seq<char> {
    csv_header() + csv_rows(rows)
}

fn digit_str(d: usize) -> (r: &'static str)
    requires
        d < 10,
    ensures
        r@ == seq![digit_char(d as nat)],
{
    proof {
        reveal_strlit("0");
        reveal_strlit("1");
        reveal_strlit("2");
        reveal_strlit("3");
        reveal_strlit("4");
        reveal_strlit("5");
        reveal_strlit("6");
        reveal_strlit("7");
        reveal_strlit("8");
        reveal_strlit("9");
    }
    if d == 0 {
        "0"
    } else if d == 1 {
        "1"
    } else if d == 2 {
        "2"
    } else if d == 3 {
        "3"
    } else if d == 4 {
        "4"
    } else if d == 5 {
        "5"
    } else if d == 6 {
        "6"
    } else if d == 7 {
        "7"
    } else if d == 8 {
        "8"
    } else {
        "9"
    }
}

/// Appends the decimal numeral of `n` to `s`.
pub fn push_decimal(s: &mut String, n: usize)
    ensures
        final(s)@ == old(s)@ + decimal(n as nat),
    decreases n,
{
    if n >= 10 {
        push_decimal(s, n / 10);
    }
    s.append(digit_str(n % 10));
    proof {
        if n >= 10 {
            assert(decimal(n as nat) == decimal((n / 10) as nat).push(digit_char((n % 10) as nat)));
        }
    }
    assert(final(s)@ =~= old(s)@ + decimal(n as nat));
}

fn push_row(s: &mut String, r: Record)
    ensures
        final(s)@ == old(s)@ + csv_row(r),
{
    proof {
        reveal_strlit(",");
        reveal_strlit("\n");
    }
    push_decimal(s, r.0.0);
    s.append(",");
    push_decimal(s, r.0.1);
    s.append(",");
    push_decimal(s, r.0.2);
    s.append(",");
    push_decimal(s, r.1);
    s.append("\n");
    assert(final(s)@ =~= old(s)@ + csv_row(r));
}

/// The table of `rows`: the header line, then one comma-separated line per
/// row, in the rows' order.
pub fn csv_text(rows: &Vec<Record>) -> (r: String)
    ensures
        r@ == csv_spec(rows@),
{
    let mut s = String::new();
    proof {
        reveal_strlit("length, k_sz, v_sz, ovh_size\n");
    }
    s.append("length, k_sz, v_sz, ovh_size\n");
    assert(s@ =~= csv_header());
    let mut i: usize = 0;
    while i < rows.len()
        invariant
            0 <= i <= rows@.len(),
            s@ == csv_header() + csv_rows(rows@.subrange(0, i as int)),
        decreases rows@.len() - i,
    {
        push_row(&mut s, rows[i]);
        proof {
            let sub = rows@.subrange(0, i as int + 1);
            assert(sub.drop_last() =~= rows@.subrange(0, i as int));
        }
        i = i + 1;
        assert(s@ =~= csv_header() + csv_rows(rows@.subrange(0, i as int)));
    }
    assert(rows@.subrange(0, rows@.len() as int) =~= rows@);
    s
}

impl TestResults {
    /// The records as a table in ascending key order; the store keeps them.
    pub fn to_csv(&self) -> (r: String)
        ensures
            r@ == csv_spec(self.records()),
    {
        csv_text(self.rows())
    }

    /// Exports the records as a table in ascending key order and empties the
    /// store.
    pub fn export_csv(&mut self) -> (r: String)
        requires
            old(self).wf(),
        ensures
            r@ == csv_spec(old(self).records()),
            final(self).wf(),
            final(self).records() == Seq::<Record>::empty(),
            final(self).name() == old(self).name(),
    {
        let rows = self.export();
        csv_text(&rows)
    }
}

/// Exporting a store that holds no records, as one that was just exported
/// does, gives the header line alone.
pub proof fn export_of_cleared_store_is_header_only(t: TestResults)
    requires
        t.records().len() == 0,
    ensures
        csv_spec(t.records()) == csv_header(),
{
    assert(csv_rows(t.records()) == Seq::<char>::empty());
    assert(csv_header() + Seq::<char>::empty() =~= csv_header());
}

} // verus!
