//! The entry model: plain values for everything that reconciliation reads.

use vstd::prelude::*;

verus! {

/// The largest magnitude of a mantissa: 96 bits.
pub const MAX_MANTISSA: i128 = 0xFFFF_FFFF_FFFF_FFFF_FFFF_FFFF;

/// The largest number of digits after the decimal point.
pub const MAX_SCALE: u32 = 28;

/// A calendar date.
#[derive(Clone, Copy, Debug, PartialEq, Eq, Structural)]
pub struct Date {
    pub year: u16,
    pub month: u8,
    pub day: u8,
}

impl Date {
    /// The position of the date in the calendar order.
    pub open spec fn ordinal(self) -> int {
        self.year as int * 65536 + self.month as int * 256 + self.day as int
    }

    pub fn new(year: u16, month: u8, day: u8) -> (r: Date)
        ensures
            r == (Date { year, month, day }),
    {
        Date { year, month, day }
    }

    /// The calendar position as an integer key: earlier dates have smaller keys.
    pub fn key(&self) -> (r: u32)
        ensures
            r as int == self.ordinal(),
    {
        self.year as u32 * 65536 + self.month as u32 * 256 + self.day as u32
    }
}

/// An exact decimal number: `mantissa / 10^scale`.
#[derive(Clone, Copy, Debug)]
pub struct Decimal {
    mantissa: i128,
    scale: u32,
}

pub open spec fn pow10(n: nat) -> int
    decreases n,
{
    if n == 0 {
        1
    } else {
        10 * pow10((n - 1) as nat)
    }
}

impl Decimal {
    #[verifier::type_invariant]
    spec fn in_range(self) -> bool {
        &&& self.scale <= MAX_SCALE
        &&& -MAX_MANTISSA <= self.mantissa <= MAX_MANTISSA
    }

    pub closed spec fn spec_mantissa(self) -> int {
        self.mantissa as int
    }

    pub closed spec fn spec_scale(self) -> nat {
        self.scale as nat
    }

    /// Two decimals denote the same number (`1.10` and `1.1` do).
    pub open spec fn same_value(self, other: Decimal) -> bool {
        self.spec_mantissa() * pow10(other.spec_scale()) == other.spec_mantissa() * pow10(
            self.spec_scale(),
        )
    }

    /// The decimal `mantissa / 10^scale`, when both parts are in range.
    pub fn from_parts(mantissa: i128, scale: u32) -> (r: Option<Decimal>)
        ensures
            r is Some <==> (scale <= MAX_SCALE && -MAX_MANTISSA <= mantissa <= MAX_MANTISSA),
            r matches Some(d) ==> d.spec_mantissa() == mantissa && d.spec_scale() == scale,
    {
        if scale <= MAX_SCALE && -MAX_MANTISSA <= mantissa && mantissa <= MAX_MANTISSA {
            Some(Decimal { mantissa, scale })
        } else {
            None
        }
    }

    pub fn mantissa(&self) -> (r: i128)
        ensures
            r == self.spec_mantissa(),
            -MAX_MANTISSA <= r <= MAX_MANTISSA,
    {
        proof {
            use_type_invariant(self);
        }
        self.mantissa
    }

    pub fn scale(&self) -> (r: u32)
        ensures
            r == self.spec_scale(),
            r <= MAX_SCALE,
    {
        proof {
            use_type_invariant(self);
        }
        self.scale
    }

    /// Numeric equality, decided by rust_decimal.
    pub fn equals(&self, other: &Decimal) -> (r: bool)
        ensures
            r == self.same_value(*other),
    {
        proof {
            use_type_invariant(self);
            use_type_invariant(other);
        }
        decimal_eq(self.mantissa, self.scale, other.mantissa, other.scale)
    }
}

/// Relies on `rust_decimal::Decimal::from_i128_with_scale`, which builds
/// `m / 10^s` (it panics only outside the ranges required here), and on
/// `PartialEq for rust_decimal::Decimal`, which compares the numbers denoted.
#[verifier::external_body]
fn decimal_eq(am: i128, ascale: u32, bm: i128, bscale: u32) -> (r: bool)
    requires
        ascale <= MAX_SCALE,
        bscale <= MAX_SCALE,
        -MAX_MANTISSA <= am <= MAX_MANTISSA,
        -MAX_MANTISSA <= bm <= MAX_MANTISSA,
    ensures
        r == (am as int * pow10(bscale as nat) == bm as int * pow10(ascale as nat)),
{
    rust_decimal::Decimal::from_i128_with_scale(am, ascale)
        == rust_decimal::Decimal::from_i128_with_scale(bm, bscale)
}


/// A number with its currency.
#[derive(Clone, Debug)]
pub struct Amount {
    pub value: Decimal,
    pub currency: String,
}

pub struct AmountV {
    pub value: Decimal,
    pub currency: Seq<char>,
}

impl View for Amount {
    type V = AmountV;

    open spec fn view(&self) -> AmountV {
        AmountV { value: self.value, currency: self.currency@ }
    }
}

pub open spec fn amount_same(a: AmountV, b: AmountV) -> bool {
    a.value.same_value(b.value) && a.currency == b.currency
}

pub open spec fn opt_amount_same(a: Option<AmountV>, b: Option<AmountV>) -> bool {
    match (a, b) {
        (Some(x), Some(y)) => amount_same(x, y),
        (None, None) => true,
        _ => false,
    }
}

pub open spec fn opt_decimal_same(a: Option<Decimal>, b: Option<Decimal>) -> bool {
    match (a, b) {
        (Some(x), Some(y)) => x.same_value(y),
        (None, None) => true,
        _ => false,
    }
}

pub open spec fn opt_string_view(s: Option<String>) -> Option<Seq<char>> {
    match s {
        Some(t) => Some(t@),
        None => None,
    }
}

pub open spec fn strings_view(v: Seq<String>) -> Seq<Seq<char>> {
    v.map_values(|t: String| t@)
}

/// The cost basis of a posting.
#[derive(Clone, Debug)]
pub struct Cost {
    pub amount: Option<Amount>,
    pub date: Option<Date>,
}

pub struct CostV {
    pub amount: Option<AmountV>,
    pub date: Option<Date>,
}

pub open spec fn opt_amount_view(a: Option<Amount>) -> Option<AmountV> {
    match a {
        Some(x) => Some(x@),
        None => None,
    }
}

impl View for Cost {
    type V = CostV;

    open spec fn view(&self) -> CostV {
        CostV { amount: opt_amount_view(self.amount), date: self.date }
    }
}

pub open spec fn opt_cost_same(a: Option<CostV>, b: Option<CostV>) -> bool {
    match (a, b) {
        (Some(x), Some(y)) => opt_amount_same(x.amount, y.amount) && x.date == y.date,
        (None, None) => true,
        _ => false,
    }
}

/// The price of a posting: per unit (`@`) or in total (`@@`).
#[derive(Clone, Debug)]
pub enum PostingPrice {
    Unit(Amount),
    Total(Amount),
}

pub enum PostingPriceV {
    Unit(AmountV),
    Total(AmountV),
}

impl View for PostingPrice {
    type V = PostingPriceV;

    open spec fn view(&self) -> PostingPriceV {
        match self {
            PostingPrice::Unit(a) => PostingPriceV::Unit(a@),
            PostingPrice::Total(a) => PostingPriceV::Total(a@),
        }
    }
}

pub open spec fn opt_price_same(a: Option<PostingPriceV>, b: Option<PostingPriceV>) -> bool {
    match (a, b) {
        (Some(PostingPriceV::Unit(x)), Some(PostingPriceV::Unit(y))) => amount_same(x, y),
        (Some(PostingPriceV::Total(x)), Some(PostingPriceV::Total(y))) => amount_same(x, y),
        (None, None) => true,
        _ => false,
    }
}

/// A metadata value.
#[derive(Clone, Debug)]
pub enum MetaValue {
    Text(String),
    Number(Decimal),
    Currency(String),
}

pub enum MetaValueV {
    Text(Seq<char>),
    Number(Decimal),
    Currency(Seq<char>),
}

impl View for MetaValue {
    type V = MetaValueV;

    open spec fn view(&self) -> MetaValueV {
        match self {
            MetaValue::Text(t) => MetaValueV::Text(t@),
            MetaValue::Number(d) => MetaValueV::Number(*d),
            MetaValue::Currency(c) => MetaValueV::Currency(c@),
        }
    }
}

pub open spec fn meta_value_same(a: MetaValueV, b: MetaValueV) -> bool {
    match (a, b) {
        (MetaValueV::Text(x), MetaValueV::Text(y)) => x == y,
        (MetaValueV::Number(x), MetaValueV::Number(y)) => x.same_value(y),
        (MetaValueV::Currency(x), MetaValueV::Currency(y)) => x == y,
        _ => false,
    }
}


pub fn opt_string_equals(a: &Option<String>, b: &Option<String>) -> (r: bool)
    ensures
        r == (opt_string_view(*a) == opt_string_view(*b)),
{
    match (a, b) {
        (Some(x), Some(y)) => *x == *y,
        (None, None) => true,
        _ => false,
    }
}

pub fn opt_decimal_equals(a: &Option<Decimal>, b: &Option<Decimal>) -> (r: bool)
    ensures
        r == opt_decimal_same(*a, *b),
{
    match (a, b) {
        (Some(x), Some(y)) => x.equals(y),
        (None, None) => true,
        _ => false,
    }
}

impl Amount {
    /// The same number in the same currency.
    pub fn equals(&self, other: &Amount) -> (r: bool)
        ensures
            r == amount_same(self@, other@),
    {
        self.value.equals(&other.value) && self.currency == other.currency
    }
}

pub fn opt_amount_equals(a: &Option<Amount>, b: &Option<Amount>) -> (r: bool)
    ensures
        r == opt_amount_same(opt_amount_view(*a), opt_amount_view(*b)),
{
    match (a, b) {
        (Some(x), Some(y)) => x.equals(y),
        (None, None) => true,
        _ => false,
    }
}

pub open spec fn opt_cost_view(c: Option<Cost>) -> Option<CostV> {
    match c {
        Some(x) => Some(x@),
        None => None,
    }
}

pub fn opt_cost_equals(a: &Option<Cost>, b: &Option<Cost>) -> (r: bool)
    ensures
        r == opt_cost_same(opt_cost_view(*a), opt_cost_view(*b)),
{
    match (a, b) {
        (Some(x), Some(y)) => opt_amount_equals(&x.amount, &y.amount) && x.date == y.date,
        (None, None) => true,
        _ => false,
    }
}

pub open spec fn opt_price_view(p: Option<PostingPrice>) -> Option<PostingPriceV> {
    match p {
        Some(x) => Some(x@),
        None => None,
    }
}

pub fn opt_price_equals(a: &Option<PostingPrice>, b: &Option<PostingPrice>) -> (r: bool)
    ensures
        r == opt_price_same(opt_price_view(*a), opt_price_view(*b)),
{
    match (a, b) {
        (Some(PostingPrice::Unit(x)), Some(PostingPrice::Unit(y))) => x.equals(y),
        (Some(PostingPrice::Total(x)), Some(PostingPrice::Total(y))) => x.equals(y),
        (None, None) => true,
        _ => false,
    }
}

impl MetaValue {
    pub fn equals(&self, other: &MetaValue) -> (r: bool)
        ensures
            r == meta_value_same(self@, other@),
    {
        match (self, other) {
            (MetaValue::Text(x), MetaValue::Text(y)) => *x == *y,
            (MetaValue::Number(x), MetaValue::Number(y)) => x.equals(y),
            (MetaValue::Currency(x), MetaValue::Currency(y)) => *x == *y,
            _ => false,
        }
    }
}


/// A copy of a list of strings.
pub fn copy_strings(v: &Vec<String>) -> (r: Vec<String>)
    ensures
        strings_view(r@) == strings_view(v@),
{
    let mut r: Vec<String> = Vec::new();
    let mut i: usize = 0;
    while i < v.len()
        invariant
            i <= v@.len(),
            r@.len() == i,
            forall|j: int| 0 <= j < i ==> (#[trigger] r@[j])@ == v@[j]@,
        decreases v@.len() - i,
    {
        r.push(v[i].clone());
        i = i + 1;
    }
    assert(strings_view(r@) =~= strings_view(v@));
    r
}

pub fn copy_opt_string(s: &Option<String>) -> (r: Option<String>)
    ensures
        opt_string_view(r) == opt_string_view(*s),
{
    match s {
        Some(t) => Some(t.clone()),
        None => None,
    }
}

impl Amount {
    pub fn duplicate(&self) -> (r: Amount)
        ensures
            r@ == self@,
    {
        Amount { value: self.value, currency: self.currency.clone() }
    }
}

pub fn copy_opt_amount(a: &Option<Amount>) -> (r: Option<Amount>)
    ensures
        opt_amount_view(r) == opt_amount_view(*a),
{
    match a {
        Some(x) => Some(x.duplicate()),
        None => None,
    }
}

pub fn copy_opt_cost(c: &Option<Cost>) -> (r: Option<Cost>)
    ensures
        opt_cost_view(r) == opt_cost_view(*c),
{
    match c {
        Some(x) => Some(Cost { amount: copy_opt_amount(&x.amount), date: x.date }),
        None => None,
    }
}

pub fn copy_opt_price(p: &Option<PostingPrice>) -> (r: Option<PostingPrice>)
    ensures
        opt_price_view(r) == opt_price_view(*p),
{
    match p {
        Some(PostingPrice::Unit(a)) => Some(PostingPrice::Unit(a.duplicate())),
        Some(PostingPrice::Total(a)) => Some(PostingPrice::Total(a.duplicate())),
        None => None,
    }
}

impl MetaValue {
    pub fn duplicate(&self) -> (r: MetaValue)
        ensures
            r@ == self@,
    {
        match self {
            MetaValue::Text(t) => MetaValue::Text(t.clone()),
            MetaValue::Number(d) => MetaValue::Number(*d),
            MetaValue::Currency(c) => MetaValue::Currency(c.clone()),
        }
    }
}

} // verus!
