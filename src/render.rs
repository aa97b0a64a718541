//! The ledger text of an entry, as appended to a journal file.

use crate::entry::{Entry, EntryContent, EntryContentV, EntryV, Posting, PostingV, TransactionV};
use crate::metadata::{Metadata, MetadataV};
use crate::model::{
    strings_view, Amount, AmountV, Cost, CostV, Date, Decimal, MetaValue, MetaValueV, PostingPrice,
    PostingPriceV, MAX_MANTISSA, MAX_SCALE,
};
use vstd::prelude::*;
use vstd::string::StringExecFns;

verus! {

/// How many decimal digits `n` has; zero has one.
pub open spec fn digit_count(n: nat) -> nat
    decreases n,
{
    if n < 10 {
        1
    } else {
        1 + digit_count(n / 10)
    }
}

/// The decimal text of `mantissa / 10^scale`: a minus sign for a negative
/// number, the digits of the magnitude padded with zeros to at least one more
/// than `scale`, and a point before the last `scale` of them when `scale > 0`.
pub open spec fn decimal_text(mantissa: int, scale: nat) -> Seq<char> {
    let mag: nat = if mantissa < 0 {
        (-mantissa) as nat
    } else {
        mantissa as nat
    };
    let width: nat = if digit_count(mag) > scale + 1 {
        digit_count(mag)
    } else {
        scale + 1
    };
    let all = digits(mag, width);
    (if mantissa < 0 {
        "-"@
    } else {
        seq![]
    }) + all.take(width - scale) + if scale > 0 {
        "."@ + all.skip(width - scale)
    } else {
        seq![]
    }
}

/// Relies on `Display for rust_decimal::Decimal` (through `to_str_internal`):
/// the digits of the magnitude, padded with zeros to the scale, a leading zero
/// when no digit is left before the point, and the sign of a negative number.
#[verifier::external_body]
fn decimal_to_text(mantissa: i128, scale: u32) -> (r: String)
    requires
        scale <= MAX_SCALE,
        -MAX_MANTISSA <= mantissa <= MAX_MANTISSA,
    ensures
        r@ == decimal_text(mantissa as int, scale as nat),
{
    rust_decimal::Decimal::from_i128_with_scale(mantissa, scale).to_string()
}

pub open spec fn digit_text(d: nat) -> Seq<char> {
    if d == 0 {
        "0"@
    } else if d == 1 {
        "1"@
    } else if d == 2 {
        "2"@
    } else if d == 3 {
        "3"@
    } else if d == 4 {
        "4"@
    } else if d == 5 {
        "5"@
    } else if d == 6 {
        "6"@
    } else if d == 7 {
        "7"@
    } else if d == 8 {
        "8"@
    } else {
        "9"@
    }
}

/// The last `width` decimal digits of `n`, most significant first.
pub open spec fn digits(n: nat, width: nat) -> Seq<char>
    decreases width,
{
    if width == 0 {
        seq![]
    } else {
        digits(n / 10, (width - 1) as nat) + digit_text(n % 10)
    }
}

/// A date as `YYYY-MM-DD`.
pub open spec fn date_text(d: Date) -> Seq<char> {
    digits(d.year as nat, 4) + "-"@ + digits(d.month as nat, 2) + "-"@ + digits(d.day as nat, 2)
}

pub open spec fn quoted(s: Seq<char>) -> Seq<char> {
    "\""@ + s + "\""@
}

pub open spec fn number_text(d: Decimal) -> Seq<char> {
    decimal_text(d.spec_mantissa(), d.spec_scale())
}

pub open spec fn amount_text(a: AmountV) -> Seq<char> {
    number_text(a.value) + " "@ + a.currency
}

pub open spec fn cost_text(c: CostV) -> Seq<char> {
    " {"@ + match c.amount {
        Some(a) => amount_text(a),
        None => seq![],
    } + match c.date {
        Some(d) => if c.amount is Some {
            ", "@ + date_text(d)
        } else {
            date_text(d)
        },
        None => seq![],
    } + "}"@
}

pub open spec fn price_text(p: PostingPriceV) -> Seq<char> {
    match p {
        PostingPriceV::Unit(a) => " @ "@ + amount_text(a),
        PostingPriceV::Total(a) => " @@ "@ + amount_text(a),
    }
}

pub open spec fn meta_value_text(v: MetaValueV) -> Seq<char> {
    match v {
        MetaValueV::Text(t) => quoted(t),
        MetaValueV::Number(d) => number_text(d),
        MetaValueV::Currency(c) => c,
    }
}

/// One line per metadata entry, each after `indent`.
pub open spec fn metadata_text(m: MetadataV, indent: Seq<char>) -> Seq<char>
    decreases m.len(),
{
    if m.len() == 0 {
        seq![]
    } else {
        metadata_text(m.drop_last(), indent) + indent + m.last().0 + ": "@ + meta_value_text(m.last().1)
            + "\n"@
    }
}

/// Each item after `prefix`.
pub open spec fn prefixed(items: Seq<Seq<char>>, prefix: Seq<char>) -> Seq<char>
    decreases items.len(),
{
    if items.len() == 0 {
        seq![]
    } else {
        prefixed(items.drop_last(), prefix) + prefix + items.last()
    }
}

pub open spec fn flag_part(f: Option<char>) -> Seq<char> {
    match f {
        Some(c) => seq![c] + " "@,
        None => seq![],
    }
}

pub open spec fn amount_part(a: Option<AmountV>) -> Seq<char> {
    match a {
        Some(x) => "  "@ + amount_text(x),
        None => seq![],
    }
}

pub open spec fn cost_part(c: Option<CostV>) -> Seq<char> {
    match c {
        Some(x) => cost_text(x),
        None => seq![],
    }
}

pub open spec fn price_part(p: Option<PostingPriceV>) -> Seq<char> {
    match p {
        Some(x) => price_text(x),
        None => seq![],
    }
}

/// A posting line, then its metadata.
pub open spec fn posting_text(p: PostingV) -> Seq<char> {
    "  "@ + flag_part(p.flag) + p.account + amount_part(p.amount) + cost_part(p.cost) + price_part(p.price)
        + "\n"@ + metadata_text(p.metadata, "    "@)
}

pub open spec fn postings_text(ps: Seq<PostingV>) -> Seq<char>
    decreases ps.len(),
{
    if ps.len() == 0 {
        seq![]
    } else {
        postings_text(ps.drop_last()) + posting_text(ps.last())
    }
}

pub open spec fn opt_text(prefix: Seq<char>, t: Option<Seq<char>>) -> Seq<char> {
    match t {
        Some(s) => prefix + quoted(s),
        None => seq![],
    }
}

pub open spec fn transaction_heading(t: TransactionV) -> Seq<char> {
    " "@ + match t.flag {
        Some(f) => seq![f],
        None => "txn"@,
    } + opt_text(" "@, t.payee) + opt_text(" "@, t.narration) + prefixed(t.tags, " #"@) + prefixed(
        t.links,
        " ^"@,
    )
}

/// Currencies separated by commas, after a space; nothing for none.
pub open spec fn currencies_text(currencies: Seq<Seq<char>>) -> Seq<char> {
    if currencies.len() == 0 {
        seq![]
    } else {
        " "@ + currencies[0] + prefixed(currencies.skip(1), ","@)
    }
}

/// The first line of an entry, after its date, without the line end.
pub open spec fn heading_text(c: EntryContentV) -> Seq<char> {
    match c {
        EntryContentV::Transaction(t) => transaction_heading(t),
        EntryContentV::Price { currency, amount } => " price "@ + currency + " "@ + amount_text(amount),
        EntryContentV::Balance { account, amount, tolerance } => " balance "@ + account + " "@
            + number_text(amount.value) + match tolerance {
            Some(t) => " ~ "@ + number_text(t),
            None => seq![],
        } + " "@ + amount.currency,
        EntryContentV::Open { account, currencies, booking_method } => " open "@ + account
            + currencies_text(currencies) + opt_text(" "@, booking_method),
        EntryContentV::Close(account) => " close "@ + account,
        EntryContentV::Pad { account, source_account } => " pad "@ + account + " "@ + source_account,
        EntryContentV::Commodity(currency) => " commodity "@ + currency,
        EntryContentV::Event { name, value } => " event "@ + quoted(name) + " "@ + quoted(value),
    }
}

/// The ledger text of an entry: its first line, its metadata, and for a
/// transaction its postings.
pub open spec fn entry_text(e: EntryV) -> Seq<char> {
    date_text(e.date) + heading_text(e.content) + "\n"@ + metadata_text(e.metadata, "  "@) + match e.content {
        EntryContentV::Transaction(t) => postings_text(t.postings),
        _ => seq![],
    }
}

fn push_digits(out: &mut String, n: u32, width: usize)
    ensures
        final(out)@ == old(out)@ + digits(n as nat, width as nat),
    decreases width,
{
    if width > 0 {
        push_digits(out, n / 10, width - 1);
        let d = n % 10;
        let t = if d == 0 {
            "0"
        } else if d == 1 {
            "1"
        } else if d == 2 {
            "2"
        } else if d == 3 {
            "3"
        } else if d == 4 {
            "4"
        } else if d == 5 {
            "5"
        } else if d == 6 {
            "6"
        } else if d == 7 {
            "7"
        } else if d == 8 {
            "8"
        } else {
            "9"
        };
        out.append(t);
        proof {
            assert(out@ == old(out)@ + digits(n as nat, width as nat)) by {
                assert(digits(n as nat, width as nat) == digits((n / 10) as nat, (width - 1) as nat) + digit_text((n % 10) as nat));
            }
        }
    }
}

fn push_date(out: &mut String, d: &Date)
    ensures
        final(out)@ == old(out)@ + date_text(*d),
{
    push_digits(out, d.year as u32, 4);
    out.append("-");
    push_digits(out, d.month as u32, 2);
    out.append("-");
    push_digits(out, d.day as u32, 2);
    assert(out@ =~= old(out)@ + date_text(*d));
}


/// Relies on `ToString for char`: the text of one character.
#[verifier::external_body]
fn char_text(c: char) -> (r: String)
    ensures
        r@ == seq![c],
{
    c.to_string()
}

fn push_number(out: &mut String, d: &Decimal)
    ensures
        final(out)@ == old(out)@ + number_text(*d),
{
    let t = decimal_to_text(d.mantissa(), d.scale());
    out.append(t.as_str());
}

fn push_amount(out: &mut String, a: &Amount)
    ensures
        final(out)@ == old(out)@ + amount_text(a@),
{
    push_number(out, &a.value);
    out.append(" ");
    out.append(a.currency.as_str());
    assert(out@ =~= old(out)@ + amount_text(a@));
}

fn push_quoted(out: &mut String, t: &String)
    ensures
        final(out)@ == old(out)@ + quoted(t@),
{
    out.append("\"");
    out.append(t.as_str());
    out.append("\"");
    assert(out@ =~= old(out)@ + quoted(t@));
}

fn push_cost(out: &mut String, c: &Cost)
    ensures
        final(out)@ == old(out)@ + cost_text(c@),
{
    let ghost start = out@;
    out.append(" {");
    match &c.amount {
        Some(a) => push_amount(out, a),
        None => {},
    }
    match &c.date {
        Some(d) => {
            if c.amount.is_some() {
                out.append(", ");
            }
            push_date(out, d);
        },
        None => {},
    }
    out.append("}");
    assert(out@ =~= start + cost_text(c@));
}

fn push_price(out: &mut String, p: &PostingPrice)
    ensures
        final(out)@ == old(out)@ + price_text(p@),
{
    match p {
        PostingPrice::Unit(a) => {
            out.append(" @ ");
            push_amount(out, a);
        },
        PostingPrice::Total(a) => {
            out.append(" @@ ");
            push_amount(out, a);
        },
    }
    assert(out@ =~= old(out)@ + price_text(p@));
}

fn push_meta_value(out: &mut String, v: &MetaValue)
    ensures
        final(out)@ == old(out)@ + meta_value_text(v@),
{
    match v {
        MetaValue::Text(t) => push_quoted(out, t),
        MetaValue::Number(d) => push_number(out, d),
        MetaValue::Currency(c) => {
            out.append(c.as_str());
        },
    }
}

fn push_metadata(out: &mut String, m: &Metadata, indent: &str)
    ensures
        final(out)@ == old(out)@ + metadata_text(m@, indent@),
{
    let ghost start = out@;
    let mut i: usize = 0;
    while i < m.entries.len()
        invariant
            i <= m@.len(),
            m@.len() == m.entries@.len(),
            out@ == start + metadata_text(m@.take(i as int), indent@),
        decreases m.entries@.len() - i,
    {
        let e = &m.entries[i];
        out.append(indent);
        out.append(e.0.as_str());
        out.append(": ");
        push_meta_value(out, &e.1);
        out.append("\n");
        proof {
            assert(m@.take(i + 1).drop_last() =~= m@.take(i as int));
            assert(out@ =~= start + metadata_text(m@.take(i + 1), indent@));
        }
        i = i + 1;
    }
    assert(m@.take(i as int) =~= m@);
}

fn push_prefixed(out: &mut String, items: &Vec<String>, prefix: &str)
    ensures
        final(out)@ == old(out)@ + prefixed(strings_view(items@), prefix@),
{
    let ghost start = out@;
    let ghost all = strings_view(items@);
    let mut i: usize = 0;
    while i < items.len()
        invariant
            i <= items@.len(),
            all == strings_view(items@),
            out@ == start + prefixed(all.take(i as int), prefix@),
        decreases items@.len() - i,
    {
        out.append(prefix);
        out.append(items[i].as_str());
        proof {
            assert(all.take(i + 1).drop_last() =~= all.take(i as int));
            assert(out@ =~= start + prefixed(all.take(i + 1), prefix@));
        }
        i = i + 1;
    }
    assert(all.take(i as int) =~= all);
}

fn push_opt_text(out: &mut String, prefix: &str, t: &Option<String>)
    ensures
        final(out)@ == old(out)@ + opt_text(prefix@, crate::model::opt_string_view(*t)),
{
    match t {
        Some(s) => {
            out.append(prefix);
            push_quoted(out, s);
        },
        None => {},
    }
    assert(out@ =~= old(out)@ + opt_text(prefix@, crate::model::opt_string_view(*t)));
}

fn push_posting_parts(out: &mut String, p: &Posting)
    ensures
        final(out)@ == old(out)@ + amount_part(p@.amount) + cost_part(p@.cost) + price_part(p@.price),
{
    let ghost s0 = out@;
    match &p.amount {
        Some(a) => {
            out.append("  ");
            push_amount(out, a);
        },
        None => {},
    }
    assert(out@ =~= s0 + amount_part(p@.amount));
    let ghost s1 = out@;
    match &p.cost {
        Some(c) => push_cost(out, c),
        None => {},
    }
    assert(out@ =~= s1 + cost_part(p@.cost));
    let ghost s2 = out@;
    match &p.price {
        Some(x) => push_price(out, x),
        None => {},
    }
    assert(out@ =~= s2 + price_part(p@.price));
    assert(out@ =~= s0 + amount_part(p@.amount) + cost_part(p@.cost) + price_part(p@.price));
}

fn push_posting(out: &mut String, p: &Posting)
    ensures
        final(out)@ == old(out)@ + posting_text(p@),
{
    let ghost start = out@;
    out.append("  ");
    match p.flag {
        Some(f) => {
            let t = char_text(f);
            out.append(t.as_str());
            out.append(" ");
        },
        None => {},
    }
    assert(out@ =~= start + "  "@ + flag_part(p.flag));
    out.append(p.account.as_str());
    let ghost s1 = out@;
    push_posting_parts(out, p);
    let ghost s2 = out@;
    out.append("\n");
    push_metadata(out, &p.metadata, "    ");
    assert(out@ =~= s2 + "\n"@ + metadata_text(p@.metadata, "    "@));
    assert(out@ =~= start + posting_text(p@));
}

fn push_postings(out: &mut String, ps: &Vec<Posting>)
    ensures
        final(out)@ == old(out)@ + postings_text(crate::entry::postings_view(ps@)),
{
    let ghost start = out@;
    let ghost all = crate::entry::postings_view(ps@);
    let mut i: usize = 0;
    while i < ps.len()
        invariant
            i <= ps@.len(),
            all == crate::entry::postings_view(ps@),
            out@ == start + postings_text(all.take(i as int)),
        decreases ps@.len() - i,
    {
        push_posting(out, &ps[i]);
        proof {
            assert(all.take(i + 1).drop_last() =~= all.take(i as int));
            assert(out@ =~= start + postings_text(all.take(i + 1)));
        }
        i = i + 1;
    }
    assert(all.take(i as int) =~= all);
}

fn push_transaction_heading(out: &mut String, t: &crate::entry::Transaction)
    ensures
        final(out)@ == old(out)@ + transaction_heading(t@),
{
    let ghost start = out@;
    out.append(" ");
    match t.flag {
        Some(f) => {
            let ft = char_text(f);
            out.append(ft.as_str());
        },
        None => {
            out.append("txn");
        },
    }
    let ghost s1 = out@;
    assert(s1 =~= start + " "@ + match t.flag {
        Some(f) => seq![f],
        None => "txn"@,
    });
    push_opt_text(out, " ", &t.payee);
    push_opt_text(out, " ", &t.narration);
    push_prefixed(out, &t.tags, " #");
    push_prefixed(out, &t.links, " ^");
    assert(out@ =~= start + transaction_heading(t@));
}

fn push_currencies(out: &mut String, currencies: &Vec<String>)
    ensures
        final(out)@ == old(out)@ + currencies_text(strings_view(currencies@)),
{
    let ghost start = out@;
    if currencies.len() > 0 {
        out.append(" ");
        out.append(currencies[0].as_str());
        let ghost mid = out@;
        let ghost rest = strings_view(currencies@).skip(1);
        let mut i: usize = 1;
        while i < currencies.len()
            invariant
                1 <= i <= currencies@.len(),
                rest == strings_view(currencies@).skip(1),
                out@ == mid + prefixed(rest.take(i - 1), ","@),
            decreases currencies@.len() - i,
        {
            out.append(",");
            out.append(currencies[i].as_str());
            proof {
                assert(rest.take(i as int).drop_last() =~= rest.take(i - 1));
                assert(out@ =~= mid + prefixed(rest.take(i as int), ","@));
            }
            i = i + 1;
        }
        assert(rest.take(i - 1) =~= rest);
        assert(out@ =~= start + currencies_text(strings_view(currencies@)));
    } else {
        assert(out@ =~= start + currencies_text(strings_view(currencies@)));
    }
}

fn push_balance_heading(out: &mut String, b: &crate::entry::Balance)
    ensures
        final(out)@ == old(out)@ + heading_text(EntryContent::Balance(*b)@),
{
    let ghost start = out@;
    out.append(" balance ");
    out.append(b.account.as_str());
    out.append(" ");
    push_number(out, &b.amount.value);
    let ghost s1 = out@;
    match &b.tolerance {
        Some(t) => {
            out.append(" ~ ");
            push_number(out, t);
        },
        None => {},
    }
    assert(out@ =~= s1 + match b.tolerance {
        Some(t) => " ~ "@ + number_text(t),
        None => seq![],
    });
    out.append(" ");
    out.append(b.amount.currency.as_str());
    assert(out@ =~= start + heading_text(EntryContent::Balance(*b)@));
}

fn push_heading(out: &mut String, c: &EntryContent)
    ensures
        final(out)@ == old(out)@ + heading_text(c@),
{
    let ghost start = out@;
    match c {
        EntryContent::Transaction(t) => push_transaction_heading(out, t),
        EntryContent::Price(p) => {
            out.append(" price ");
            out.append(p.currency.as_str());
            out.append(" ");
            push_amount(out, &p.amount);
            assert(out@ =~= start + heading_text(c@));
        },
        EntryContent::Balance(b) => push_balance_heading(out, b),
        EntryContent::Open(o) => {
            out.append(" open ");
            out.append(o.account.as_str());
            push_currencies(out, &o.currencies);
            push_opt_text(out, " ", &o.booking_method);
            assert(out@ =~= start + heading_text(c@));
        },
        EntryContent::Close(a) => {
            out.append(" close ");
            out.append(a.as_str());
            assert(out@ =~= start + heading_text(c@));
        },
        EntryContent::Pad(p) => {
            out.append(" pad ");
            out.append(p.account.as_str());
            out.append(" ");
            out.append(p.source_account.as_str());
            assert(out@ =~= start + heading_text(c@));
        },
        EntryContent::Commodity(cur) => {
            out.append(" commodity ");
            out.append(cur.as_str());
            assert(out@ =~= start + heading_text(c@));
        },
        EntryContent::Event(e) => {
            out.append(" event ");
            push_quoted(out, &e.name);
            out.append(" ");
            push_quoted(out, &e.value);
            assert(out@ =~= start + heading_text(c@));
        },
    }
}

/// The ledger text of `entry`, ending with a line end.
pub fn render_entry(entry: &Entry) -> (r: String)
    ensures
        r@ == entry_text(entry@),
{
    let mut out = String::new();
    push_date(&mut out, &entry.date);
    push_heading(&mut out, &entry.content);
    out.append("\n");
    push_metadata(&mut out, &entry.metadata, "  ");
    match &entry.content {
        EntryContent::Transaction(t) => push_postings(&mut out, &t.postings),
        _ => {},
    }
    assert(out@ =~= entry_text(entry@));
    out
}

} // verus!
