//! Seeding from the OS-maintained resolution table: whitespace-delimited text
//! lines, first column an IPv4 literal (the header row's first column is the
//! literal "IP"), fourth column a colon-hex link-address literal. Header rows
//! and rows with fewer than four columns are skipped; a malformed literal on
//! a data row aborts the whole load.

use vstd::prelude::*;

use crate::cache::ArpEntry;
use crate::literal::spec_parse_ipv4;
use crate::literal::spec_parse_mac;
use crate::literal::parse_ipv4;
use crate::literal::parse_mac;
use crate::text::ranges_to_pieces;
use crate::text::spec_words;
use crate::text::split_on;
use crate::text::split_ranges;
use crate::text::word_ranges;

verus! {

/// Why a seed load failed.
#[derive(Debug, Clone, Copy, PartialEq, Eq, Structural)]
pub enum SeedError {
    /// A data row held a literal that is no IPv4 or link-address literal.
    MalformedRow,
}

/// What one row of the table contributes.
pub enum SeedRow {
    /// Header, empty, or short row: ignored.
    Skip,
    /// A qualifying data row's binding.
    Entry(ArpEntry),
    /// A data row whose first or fourth column does not parse.
    Malformed,
}

/// Reads one row: skip the header (first column the literal "IP") and any
/// row with fewer than four columns; otherwise the first column is the IP,
/// the fourth the link address.
pub open spec fn spec_seed_row(line: Seq<char>) -> SeedRow {
    let ws = spec_words(line);
    if ws.len() == 0 {
        SeedRow::Skip
    } else if ws[0] == seq!['I', 'P'] {
        SeedRow::Skip
    } else if ws.len() < 4 {
        SeedRow::Skip
    } else {
        let ip = spec_parse_ipv4(ws[0]);
        let mac = spec_parse_mac(ws[3]);
        if ip is Some && mac is Some {
            SeedRow::Entry(ArpEntry { ip: ip->0, mac: mac->0 })
        } else {
            SeedRow::Malformed
        }
    }
}

/// The entries of the given rows, in order; nothing once any row is
/// malformed.
pub open spec fn spec_seed_rows(lines: Seq<Seq<char>>) -> Option<Seq<ArpEntry>>
    decreases lines.len(),
{
    if lines.len() == 0 {
        Some(Seq::<ArpEntry>::empty())
    } else {
        match spec_seed_rows(lines.drop_last()) {
            None => None,
            Some(acc) => match spec_seed_row(lines.last()) {
                SeedRow::Skip => Some(acc),
                SeedRow::Entry(e) => Some(acc.push(e)),
                SeedRow::Malformed => None,
            },
        }
    }
}

/// What the whole table text seeds: its lines, read in order.
pub open spec fn spec_parse_seed(text: Seq<char>) -> Option<Seq<ArpEntry>> {
    spec_seed_rows(split_on(text, '\n'))
}

/// Once a prefix of the rows has failed, the whole table fails.
proof fn lemma_seed_rows_none_prefix(lines: Seq<Seq<char>>, m: int)
    requires
        0 <= m <= lines.len(),
        spec_seed_rows(lines.take(m)) is None,
    ensures
        spec_seed_rows(lines) is None,
    decreases lines.len() - m,
{
    if m == lines.len() {
        assert(lines.take(m) =~= lines);
    } else {
        assert(lines.take(m + 1).drop_last() =~= lines.take(m));
        lemma_seed_rows_none_prefix(lines, m + 1);
    }
}

/// Parses the resolution-table text into entries. Succeeds exactly when no
/// data row holds a malformed literal, with the qualifying rows' bindings in
/// table order.
pub fn parse_seed_text(text: &str) -> (r: Result<Vec<ArpEntry>, SeedError>)
    ensures
        r is Ok <==> spec_parse_seed(text@) is Some,
        r is Ok ==> r->Ok_0@ == spec_parse_seed(text@)->Some_0,
{
    let lines = split_ranges(text, '\n');
    let ghost ls = split_on(text@, '\n');
    let mut out: Vec<ArpEntry> = Vec::new();
    let mut k: usize = 0;
    while k < lines.len()
        invariant
            0 <= k <= lines.len(),
            ls == split_on(text@, '\n'),
            lines@.len() == ls.len(),
            ranges_to_pieces(text@, lines@) == ls,
            crate::text::ranges_in_bounds(text@, lines@),
            spec_seed_rows(ls.take(k as int)) == Some(out@),
        decreases lines.len() - k,
    {
        let p = lines[k];
        proof {
            assert(ranges_to_pieces(text@, lines@)[k as int] == text@.subrange(
                p.0 as int,
                p.1 as int,
            ));
        }
        let line = text.substring_char(p.0, p.1);
        proof {
            assert(line@ == ls[k as int]);
        }
        let row = seed_row(line);
        proof {
            assert(ls.take(k as int + 1).drop_last() =~= ls.take(k as int));
            assert(ls.take(k as int + 1).last() == ls[k as int]);
        }
        match row {
            None => {
                // a malformed data row aborts the whole load
                proof {
                    assert(spec_seed_row(ls[k as int]) is Malformed);
                    assert(spec_seed_rows(ls.take(k as int + 1)) is None);
                    lemma_seed_rows_none_prefix(ls, k as int + 1);
                }
                return Err(SeedError::MalformedRow);
            },
            Some(None) => {},
            Some(Some(e)) => {
                out.push(e);
            },
        }
        k = k + 1;
    }
    proof {
        assert(ls.take(lines@.len() as int) =~= ls);
    }
    Ok(out)
}

/// Reads one row: `None` for a malformed data row, `Some(None)` for a row to
/// skip, `Some(Some(e))` for a qualifying data row's binding.
fn seed_row(line: &str) -> (r: Option<Option<ArpEntry>>)
    ensures
        r is None <==> spec_seed_row(line@) is Malformed,
        r == Some(Option::<ArpEntry>::None) <==> spec_seed_row(line@) is Skip,
        (r is Some && r->0 is Some) ==> spec_seed_row(line@) == SeedRow::Entry(r->0->0),
{
    let ws = word_ranges(line);
    let ghost wspec = spec_words(line@);
    if ws.len() == 0 {
        return Some(None);
    }
    proof {
        assert forall|k: int| 0 <= k < ws@.len() implies wspec[k] == line@.subrange(
            ws@[k].0 as int,
            ws@[k].1 as int,
        ) by {
            assert(ranges_to_pieces(line@, ws@)[k] == line@.subrange(
                ws@[k].0 as int,
                ws@[k].1 as int,
            ));
        }
    }
    let w0 = ws[0];
    if w0.1 - w0.0 == 2 && line.get_char(w0.0) == 'I' && line.get_char(w0.0 + 1) == 'P' {
        proof {
            assert(wspec[0] =~= seq!['I', 'P']);
        }
        return Some(None);
    }
    proof {
        // not the header: the first word differs from "IP" in length or a character
        if wspec[0] == seq!['I', 'P'] {
            assert(line@[w0.0 as int] == wspec[0][0]);
            assert(line@[w0.0 + 1] == wspec[0][1]);
            assert(false);
        }
    }
    if ws.len() < 4 {
        return Some(None);
    }
    let w3 = ws[3];
    let ip_str = line.substring_char(w0.0, w0.1);
    let mac_str = line.substring_char(w3.0, w3.1);
    match (parse_ipv4(ip_str), parse_mac(mac_str)) {
        (Some(ip), Some(mac)) => Some(Some(ArpEntry::new(ip, mac))),
        _ => None,
    }
}

} // verus!
