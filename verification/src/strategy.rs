//! The strategy interface and the steps the strategies share: price in
//! percent of the face value, the cash flows a yield is computed from,
//! ranking candidates and spending the cash on them.
use crate::decimal::{
    checked_add, checked_div, checked_mul, checked_sub, decimal_checked_add, decimal_checked_div,
    decimal_checked_mul, decimal_checked_sub, from_i64, is_positive, lt, pow10, to_i64, zero, Dec,
};
use crate::keyed_map::{keys_distinct, lookup, store, IsinMap};
use crate::model::{
    lemma_from_i64_is_spec, spec_from_i64, BondPersistentInfo, Date, MarketOrder, MarketOrderType,
    PaymentInfo, Portfolio, portfolio_view, PortfolioView,
};
use crate::simulator::saturating_int;
use vstd::prelude::*;

verus! {

/// A trading strategy.  The yield of a bond is an internal rate of return
/// over cash flows that the strategy chooses (`yield_inputs`); the rate is
/// computed by the caller and handed to `decide_trades`.
pub trait Strategy {
    /// The cash flows (amounts and days, the purchase first) whose internal
    /// rate of return is the bond's yield, or `None` when the strategy counts
    /// the yield as -1 without computing it.
    fn yield_inputs(&self, price: Dec, current_date: Date, info: &BondPersistentInfo) -> Option<CashFlows>;

    /// The orders the strategy places on `current_date` for a portfolio, the
    /// bonds, their prices, volumes and yields; `None` when a decimal
    /// operation overflows.  Each strategy of this library states its own;
    /// the default, for strategies written outside verified code, is an
    /// unknown value of which nothing is stated.
    open spec fn decision(
        &self,
        current_date: Date,
        portfolio: PortfolioView,
        infos: Seq<(Seq<char>, BondPersistentInfo)>,
        prices: Seq<(Seq<char>, Dec)>,
        volumes: Seq<(Seq<char>, i64)>,
        yields: Seq<(Seq<char>, Dec)>,
    ) -> Option<Seq<OrderView>> {
        vstd::pervasive::arbitrary()
    }

    /// The orders to place on `current_date`; `yields` holds the computed
    /// rates (a missing one counts as -1).  `None` when a decimal operation
    /// overflows.
    fn decide_trades(
        &self,
        current_date: Date,
        portfolio: &Portfolio,
        bonds_info: &IsinMap<BondPersistentInfo>,
        bonds_prices: &IsinMap<Dec>,
        bonds_volumes: &IsinMap<i64>,
        yields: &IsinMap<Dec>,
    ) -> (o: Option<Vec<MarketOrder>>)
        ensures
            o is Some <==> self.decision(current_date, portfolio_view(*portfolio), bonds_info@, bonds_prices@, bonds_volumes@, yields@) is Some,
            o is Some ==> orders_view(o->0@) == self.decision(
                current_date,
                portfolio_view(*portfolio),
                bonds_info@,
                bonds_prices@,
                bonds_volumes@,
                yields@,
            )->0,
    ;
}

/// Cash flows: amounts with their days.
pub struct CashFlows {
    pub amounts: Vec<Dec>,
    pub dates: Vec<Date>,
}

/// A market order as a value of the model.
pub struct OrderView {
    pub isin: Seq<char>,
    pub order_type: MarketOrderType,
    pub count: i64,
}

/// The model of a market order.
pub open spec fn order_view(o: MarketOrder) -> OrderView {
    OrderView { isin: o.isin@, order_type: o.order_type, count: o.count }
}

/// The model of a list of market orders.
pub open spec fn orders_view(s: Seq<MarketOrder>) -> Seq<OrderView> {
    Seq::new(s.len(), |i: int| order_view(s[i]))
}

/// `-d` (`Neg` on a decimal flips the sign of the mantissa).
pub fn negate(d: Dec) -> (r: Dec)
    ensures
        r.m() == -d.m(),
        r.s() == d.s(),
{
    proof {
        use_type_invariant(&d);
    }
    match Dec::new(-d.mantissa(), d.scale()) {
        Some(r) => r,
        None => d,
    }
}

/// The price of a bond in percent of its face value (1000 when unknown; a
/// non-positive face value gives 100).
pub open spec fn price_percent_spec(price: Dec, facevalue: Option<Dec>) -> Option<Dec> {
    let fv = match facevalue {
        Some(f) => f,
        None => spec_from_i64(1000),
    };
    if fv.val() > 0 {
        match decimal_checked_div(price, fv) {
            None => None,
            Some(q) => decimal_checked_mul(q, spec_from_i64(100)),
        }
    } else {
        Some(spec_from_i64(100))
    }
}

/// The face value a price percent is taken of: the recorded one, else 1000.
pub open spec fn face_or_default(facevalue: Option<Dec>) -> Dec {
    match facevalue {
        Some(f) => f,
        None => spec_from_i64(1000),
    }
}

/// Whether the price percent is computed without rounding: the face value
/// is positive with a mantissa below `2^32`, and the quotient and its product
/// with a hundred are exact.
pub open spec fn price_percent_is_exact(price: Dec, facevalue: Option<Dec>) -> bool {
    let fv = face_or_default(facevalue);
    let q = decimal_checked_div(price, fv)->0;
    &&& fv.val() > 0
    &&& crate::decimal::abs(fv.m()) < crate::decimal::two32()
    &&& exists|k: nat| #[trigger] crate::decimal::quotient_fits_at(price, fv, k)
    &&& exists|k: nat| #[trigger] crate::decimal::product_fits_after(q, spec_from_i64(100), k)
}

/// The price of a bond in percent of its face value: `100 * price /
/// facevalue` where no step rounds, and 100 for a face value that is not
/// positive.
pub fn price_percent(price: Dec, facevalue: Option<Dec>) -> (r: Option<Dec>)
    ensures
        r == price_percent_spec(price, facevalue),
        face_or_default(facevalue).val() <= 0 ==> (r matches Some(pct) && pct.val() == 100 * pow10(28)),
        price_percent_is_exact(price, facevalue) ==> (r matches Some(pct)
            && pct.val() * face_or_default(facevalue).val() == 100 * price.val() * pow10(28)),
{
    let thousand = from_i64(1000);
    let hundred = from_i64(100);
    proof {
        lemma_from_i64_is_spec(thousand, 1000);
        lemma_from_i64_is_spec(hundred, 100);
        crate::decimal::lemma_pow10_positive(28);
    }
    let fv = match facevalue {
        Some(f) => f,
        None => thousand,
    };
    if is_positive(fv) {
        proof {
            if price_percent_is_exact(price, facevalue) {
                let k = choose|k: nat| #[trigger] crate::decimal::quotient_fits_at(price, fv, k);
                assert(crate::decimal::quotient_fits_at(price, fv, k));
            }
        }
        match checked_div(price, fv) {
            None => None,
            Some(q) => {
                proof {
                    if price_percent_is_exact(price, facevalue) {
                        let k = choose|k: nat| #[trigger] crate::decimal::product_fits_after(q, spec_from_i64(100), k);
                        assert(crate::decimal::product_fits_after(q, hundred, k));
                    }
                }
                let r = checked_mul(q, hundred);
                proof {
                    if price_percent_is_exact(price, facevalue) {
                        let big = pow10(28);
                        let z = r->0.val();
                        assert(z * big == q.val() * (100 * big));
                        assert(q.val() * fv.val() == price.val() * big);
                        assert(z * fv.val() == 100 * price.val() * big) by (nonlinear_arith)
                            requires
                                big > 0,
                                z * big == q.val() * (100 * big),
                                q.val() * fv.val() == price.val() * big,
                        {
                            assert(z == 100 * q.val()) by (nonlinear_arith)
                                requires
                                    big > 0,
                                    z * big == q.val() * (100 * big),
                            ;
                        }
                    }
                }
                r
            },
        }
    } else {
        Some(hundred)
    }
}

/// The payments after `after` (and, with `positive_only`, above zero) as
/// amounts and days.
pub open spec fn later_payments(s: Seq<PaymentInfo>, after: int, positive_only: bool) -> Seq<(Dec, Date)>
    decreases s.len(),
{
    if s.len() == 0 {
        Seq::empty()
    } else {
        let rest = later_payments(s.drop_last(), after, positive_only);
        let p = s.last();
        if p.date > after && (!positive_only || p.amount.val() > 0) {
            rest.push((p.amount, p.date))
        } else {
            rest
        }
    }
}

/// The cash flows of buying at `price` on `current_date` and receiving the
/// later payments: the purchase (the negated price) first.
pub open spec fn purchase_flows(price: Dec, current_date: Date, s: Seq<PaymentInfo>, after: int, positive_only: bool) -> Seq<(Dec, Date)> {
    seq![(negated(price), current_date)] + later_payments(s, after, positive_only)
}

/// The negated decimal.
pub open spec fn negated(d: Dec) -> Dec {
    choose|r: Dec| r.m() == -d.m() && r.s() == d.s()
}

/// The cash flows as pairs.
pub open spec fn flows_view(c: CashFlows) -> Seq<(Dec, Date)> {
    Seq::new(c.amounts@.len(), |i: int| (c.amounts@[i], c.dates@[i]))
}

/// Buying at `price` and receiving the payments after `current_date + offset`
/// (only the positive ones with `positive_only`).
pub fn purchase_cash_flows(
    price: Dec,
    current_date: Date,
    info: &BondPersistentInfo,
    offset: i32,
    positive_only: bool,
) -> (r: CashFlows)
    ensures
        r.amounts@.len() == r.dates@.len(),
        flows_view(r) == purchase_flows(price, current_date, info.payments@, current_date + offset, positive_only),
{
    let neg = negate(price);
    proof {
        crate::decimal::lemma_dec_ext(neg, negated(price));
    }
    let mut amounts: Vec<Dec> = Vec::new();
    let mut dates: Vec<Date> = Vec::new();
    amounts.push(neg);
    dates.push(current_date);
    let after: i64 = current_date as i64 + offset as i64;
    let n = info.payments.len();
    let mut i: usize = 0;
    while i < n
        invariant
            n == info.payments@.len(),
            i <= n,
            after == current_date + offset,
            amounts@.len() == dates@.len(),
            flows_view(CashFlows { amounts, dates }) =~= seq![(neg, current_date)] + later_payments(
                info.payments@.take(i as int),
                after as int,
                positive_only,
            ),
        decreases n - i,
    {
        let p = info.payments[i];
        assert(info.payments@.take(i + 1).drop_last() =~= info.payments@.take(i as int));
        let ghost old_flows = flows_view(CashFlows { amounts, dates });
        if p.date as i64 > after && (!positive_only || is_positive(p.amount)) {
            amounts.push(p.amount);
            dates.push(p.date);
            assert(flows_view(CashFlows { amounts, dates }) =~= old_flows.push((p.amount, p.date)));
        }
        i = i + 1;
    }
    assert(info.payments@.take(n as int) =~= info.payments@);
    CashFlows { amounts, dates }
}

/// A bond a strategy may buy.
pub struct Candidate {
    pub isin: String,
    /// Its yield.
    pub yield_xirr: Dec,
    /// What candidates are ranked by, highest first.
    pub rank: Dec,
    /// Price of one bond.
    pub price: Dec,
    /// The most that may be bought (the day's traded volume).
    pub max_buy: i64,
}

/// A candidate as a value of the model.
pub struct CandidateView {
    pub isin: Seq<char>,
    pub yield_xirr: Dec,
    pub rank: Dec,
    pub price: Dec,
    pub max_buy: i64,
}

/// The model of a candidate.
pub open spec fn cand_view(c: Candidate) -> CandidateView {
    CandidateView { isin: c.isin@, yield_xirr: c.yield_xirr, rank: c.rank, price: c.price, max_buy: c.max_buy }
}

/// The model of a list of candidates.
pub open spec fn cands_view(s: Seq<Candidate>) -> Seq<CandidateView> {
    Seq::new(s.len(), |i: int| cand_view(s[i]))
}

/// `p` is the first index whose rank is below `r` (or the length).
pub open spec fn is_first_below(s: Seq<CandidateView>, r: int, p: int) -> bool {
    &&& 0 <= p <= s.len()
    &&& forall|k: int| 0 <= k < p ==> s[k].rank.val() >= r
    &&& p < s.len() ==> s[p].rank.val() < r
}

/// The first index whose rank is below `r` (or the length).
pub open spec fn first_below(s: Seq<CandidateView>, r: int) -> int {
    choose|p: int| is_first_below(s, r, p)
}

/// The first index below a rank is unique.
pub proof fn lemma_first_below_unique(s: Seq<CandidateView>, r: int, p: int)
    requires
        is_first_below(s, r, p),
    ensures
        first_below(s, r) == p,
{
    let q = first_below(s, r);
    assert(is_first_below(s, r, q));
    if q < p {
        assert(s[q].rank.val() >= r);
    } else if p < q {
        assert(s[p].rank.val() >= r);
    }
}

/// Candidates ranked highest first, equal ranks in the order given
/// (each one inserted after those ranked at least as high).
pub open spec fn ranked(s: Seq<CandidateView>) -> Seq<CandidateView>
    decreases s.len(),
{
    if s.len() == 0 {
        Seq::empty()
    } else {
        let r = ranked(s.drop_last());
        r.insert(first_below(r, s.last().rank.val()), s.last())
    }
}

/// Ranks candidates highest first, keeping the order of equal ranks (a
/// stable sort).
pub fn rank_candidates(cands: Vec<Candidate>) -> (r: Vec<Candidate>)
    ensures
        cands_view(r@) == ranked(cands_view(cands@)),
{
    let ghost orig = cands@;
    let ghost origv = cands_view(cands@);
    let mut rest = cands;
    let mut result: Vec<Candidate> = Vec::new();
    let n = rest.len();
    let mut i: usize = 0;
    while i < n
        invariant
            n == orig.len(),
            i <= n,
            origv == cands_view(orig),
            rest@ == orig.skip(i as int),
            cands_view(result@) == ranked(origv.take(i as int)),
        decreases n - i,
    {
        let c = rest.remove(0);
        assert(c == orig[i as int]);
        assert(origv.take(i + 1).drop_last() =~= origv.take(i as int));
        assert(origv.take(i + 1).last() == cand_view(c));
        assert(rest@ =~= orig.skip(i + 1));
        let m = result.len();
        let mut j: usize = 0;
        while j < m && !lt(result[j].rank, c.rank)
            invariant
                m == result@.len(),
                j <= m,
                forall|k: int| 0 <= k < j ==> cands_view(result@)[k].rank.val() >= c.rank.val(),
            decreases m - j,
        {
            j = j + 1;
        }
        proof {
            lemma_first_below_unique(cands_view(result@), c.rank.val(), j as int);
        }
        let ghost before = result@;
        result.insert(j, c);
        assert(cands_view(result@) =~= cands_view(before).insert(j as int, cand_view(c)));
        i = i + 1;
    }
    assert(origv.take(n as int) =~= origv);
    result
}

/// The inputs of spending: the portfolio value, the cap on one position's
/// value, and whether weights grow with each purchase.
pub struct Allocation {
    pub portfolio_value: Dec,
    pub max_position_value: Dec,
    pub update_weights: bool,
}

/// One step of spending on a candidate: the new cash, weights and order.
pub struct Step {
    pub free_money: Dec,
    pub weights: Seq<(Seq<char>, Dec)>,
    pub order: Option<OrderView>,
}

/// The weight a position already has (zero when none is recorded).
pub open spec fn weight_of(weights: Seq<(Seq<char>, Dec)>, isin: Seq<char>) -> Dec {
    match lookup(weights, isin) {
        Some(w) => w,
        None => spec_from_i64(0),
    }
}

/// How many bonds of a candidate to buy: as many as fit in the room left
/// under the position cap, in the free cash and in the day's volume.  The
/// room is `max_position_value - weight * portfolio_value`; no room, or no
/// positive price, means none.
pub open spec fn buy_count_spec(c: CandidateView, free: Dec, weights: Seq<(Seq<char>, Dec)>, a: Allocation) -> Option<i64> {
    match decimal_checked_mul(weight_of(weights, c.isin), a.portfolio_value) {
        None => None,
        Some(existing_value) => match decimal_checked_sub(a.max_position_value, existing_value) {
            None => None,
            Some(room) => if room.val() <= 0 || c.price.val() <= 0 {
                Some(0)
            } else {
                match (decimal_checked_div(room, c.price), decimal_checked_div(free, c.price)) {
                    (Some(by_weight), Some(by_money)) => {
                        let w = saturating_int(by_weight);
                        let m = if crate::decimal::int_part(by_money) > i64::MAX || crate::decimal::int_part(by_money) < i64::MIN { 0 } else { crate::decimal::int_part(by_money) };
                        let wm = if w <= m { w as int } else { m };
                        Some((if wm <= c.max_buy { wm } else { c.max_buy as int }) as i64)
                    },
                    _ => None,
                }
            },
        },
    }
}

/// Spending on one candidate.
pub open spec fn step_spec(c: CandidateView, free: Dec, weights: Seq<(Seq<char>, Dec)>, a: Allocation) -> Option<Step> {
    match buy_count_spec(c, free, weights, a) {
        None => None,
        Some(count) => if count <= 0 {
            Some(Step { free_money: free, weights, order: None })
        } else {
            match decimal_checked_mul(c.price, spec_from_i64(count)) {
                None => None,
                Some(cost) => match decimal_checked_sub(free, cost) {
                    None => None,
                    Some(free1) => {
                        let order = Some(OrderView { isin: c.isin, order_type: MarketOrderType::Buy, count });
                        if a.update_weights {
                            match decimal_checked_div(cost, a.portfolio_value) {
                                None => None,
                                Some(dw) => match decimal_checked_add(weight_of(weights, c.isin), dw) {
                                    None => None,
                                    Some(w) => Some(Step { free_money: free1, weights: store(weights, c.isin, w), order }),
                                },
                            }
                        } else {
                            Some(Step { free_money: free1, weights, order })
                        }
                    },
                },
            }
        },
    }
}

/// The orders of a step.
pub open spec fn step_orders(o: Option<OrderView>) -> Seq<OrderView> {
    match o {
        Some(v) => seq![v],
        None => Seq::empty(),
    }
}

/// Spending the cash on the candidates in order, stopping when no cash is
/// left: the remaining cash, the weights and the buy orders.
pub open spec fn allocate_spec(cands: Seq<CandidateView>, free: Dec, weights: Seq<(Seq<char>, Dec)>, a: Allocation) -> Option<Step>
    decreases cands.len(),
{
    if cands.len() == 0 || free.val() <= 0 {
        Some(Step { free_money: free, weights, order: None })
    } else {
        match step_spec(cands[0], free, weights, a) {
            None => None,
            Some(st) => match allocate_spec(cands.skip(1), st.free_money, st.weights, a) {
                None => None,
                Some(rest) => Some(rest),
            },
        }
    }
}

/// The buy orders of spending the cash on the candidates in order.
pub open spec fn allocation_orders(cands: Seq<CandidateView>, free: Dec, weights: Seq<(Seq<char>, Dec)>, a: Allocation) -> Seq<OrderView>
    decreases cands.len(),
{
    if cands.len() == 0 || free.val() <= 0 {
        Seq::empty()
    } else {
        match step_spec(cands[0], free, weights, a) {
            None => Seq::empty(),
            Some(st) => step_orders(st.order) + allocation_orders(cands.skip(1), st.free_money, st.weights, a),
        }
    }
}

/// How many bonds of a candidate to buy (`None` on decimal overflow).  The
/// purchase costs no more than the room left under the position cap, nor
/// than the free cash, wherever those divided by the price are exact.
pub fn buy_count(c: &Candidate, free: Dec, weights: &IsinMap<Dec>, a: &Allocation) -> (r: Option<i64>)
    ensures
        r == buy_count_spec(cand_view(*c), free, weights@, *a),
        ({
            let existing = decimal_checked_mul(weight_of(weights@, c.isin@), a.portfolio_value)->0;
            let room = decimal_checked_sub(a.max_position_value, existing)->0;
            let n = r->0;
            r is Some && n > 0 && crate::decimal::abs(c.price.m()) < crate::decimal::two32() ==> {
                &&& (exists|k: nat| #[trigger] crate::decimal::quotient_fits_at(room, c.price, k))
                    ==> n * c.price.val() <= room.val()
                &&& (exists|k: nat| #[trigger] crate::decimal::quotient_fits_at(free, c.price, k))
                    ==> n * c.price.val() <= free.val()
            }
        }),
{
    let w = match weights.get(&c.isin) {
        Some(w) => w,
        None => {
            let z = from_i64(0);
            proof {
                lemma_from_i64_is_spec(z, 0);
            }
            z
        },
    };
    let existing_value = match checked_mul(w, a.portfolio_value) {
        None => return None,
        Some(v) => v,
    };
    let room = match checked_sub(a.max_position_value, existing_value) {
        None => return None,
        Some(v) => v,
    };
    if !is_positive(room) || !is_positive(c.price) {
        return Some(0);
    }
    proof {
        if crate::decimal::abs(c.price.m()) < crate::decimal::two32() {
            if exists|k: nat| #[trigger] crate::decimal::quotient_fits_at(room, c.price, k) {
                let k = choose|k: nat| #[trigger] crate::decimal::quotient_fits_at(room, c.price, k);
                assert(crate::decimal::quotient_fits_at(room, c.price, k));
            }
            if exists|k: nat| #[trigger] crate::decimal::quotient_fits_at(free, c.price, k) {
                let k = choose|k: nat| #[trigger] crate::decimal::quotient_fits_at(free, c.price, k);
                assert(crate::decimal::quotient_fits_at(free, c.price, k));
            }
        }
    }
    let by_weight = match checked_div(room, c.price) {
        None => return None,
        Some(v) => v,
    };
    let by_money = match checked_div(free, c.price) {
        None => return None,
        Some(v) => v,
    };
    let w = crate::simulator::saturating_to_i64(by_weight);
    let m = match to_i64(by_money) {
        Some(m) => m,
        None => 0,
    };
    let wm = if w <= m { w } else { m };
    let n = if wm <= c.max_buy { wm } else { c.max_buy };
    proof {
        if n > 0 && crate::decimal::abs(c.price.m()) < crate::decimal::two32() {
            use_type_invariant(&by_weight);
            use_type_invariant(&by_money);
            if exists|k: nat| #[trigger] crate::decimal::quotient_fits_at(room, c.price, k) {
                lemma_whole_part_times_divisor(by_weight, room, c.price, n as int);
            }
            if exists|k: nat| #[trigger] crate::decimal::quotient_fits_at(free, c.price, k) {
                lemma_whole_part_times_divisor(by_money, free, c.price, n as int);
            }
        }
    }
    Some(n)
}

/// A positive count no more than the integer part of an exact quotient
/// `a / b` (with `b` positive) times `b` is no more than `a`.
proof fn lemma_whole_part_times_divisor(q: Dec, a: Dec, b: Dec, n: int)
    requires
        q.wf(),
        n > 0,
        n <= crate::decimal::int_part(q),
        b.val() > 0,
        q.val() * b.val() == a.val() * pow10(28),
    ensures
        n * b.val() <= a.val(),
{
    crate::decimal::lemma_int_part_sign(q);
    crate::decimal::lemma_sign_of_val(q);
    crate::decimal::lemma_int_part_floor(q);
    crate::decimal::lemma_pow10_positive(28);
    let big = pow10(28);
    let ip = crate::decimal::int_part(q);
    assert(n * b.val() <= a.val()) by (nonlinear_arith)
        requires
            n <= ip,
            ip * big <= q.val(),
            q.val() * b.val() == a.val() * big,
            b.val() > 0,
            big > 0,
            n > 0,
    ;
}

/// Cash, weights and orders after spending.
pub struct Spent {
    pub free_money: Dec,
    pub weights: IsinMap<Dec>,
    pub orders: Vec<MarketOrder>,
}

/// Spending on one candidate (`None` on decimal overflow).
pub fn step(c: &Candidate, free: Dec, weights: IsinMap<Dec>, a: &Allocation) -> (r: Option<Spent>)
    ensures
        r is Some <==> step_spec(cand_view(*c), free, weights@, *a) is Some,
        r is Some ==> {
            let st = step_spec(cand_view(*c), free, weights@, *a)->0;
            &&& r->0.free_money == st.free_money
            &&& r->0.weights@ == st.weights
            &&& orders_view(r->0.orders@) == step_orders(st.order)
        },
        ({
            let n = buy_count_spec(cand_view(*c), free, weights@, *a)->0;
            r is Some && n > 0 && (exists|k: nat| #[trigger] crate::decimal::product_fits_after(c.price, spec_from_i64(n), k))
                && crate::decimal::sum_is_exact(free, decimal_checked_mul(c.price, spec_from_i64(n))->0, -1)
                ==> r->0.free_money.val() == free.val() - c.price.val() * n
        }),
{
    let count = match buy_count(c, free, &weights, a) {
        None => return None,
        Some(n) => n,
    };
    if count <= 0 {
        let orders: Vec<MarketOrder> = Vec::new();
        assert(orders_view(orders@) =~= Seq::<OrderView>::empty());
        return Some(Spent { free_money: free, weights, orders });
    }
    let n = from_i64(count);
    proof {
        lemma_from_i64_is_spec(n, count);
        crate::decimal::lemma_pow10_positive(28);
        if exists|k: nat| #[trigger] crate::decimal::product_fits_after(c.price, spec_from_i64(count), k) {
            let k = choose|k: nat| #[trigger] crate::decimal::product_fits_after(c.price, spec_from_i64(count), k);
            assert(crate::decimal::product_fits_after(c.price, n, k));
        }
    }
    let cost = match checked_mul(c.price, n) {
        None => return None,
        Some(v) => v,
    };
    proof {
        if exists|k: nat| #[trigger] crate::decimal::product_fits_after(c.price, spec_from_i64(count), k) {
            let big = pow10(28);
            let t = cost.val();
            assert(t * big == c.price.val() * (count * big));
            assert(t == c.price.val() * count) by (nonlinear_arith)
                requires
                    t * big == c.price.val() * (count * big),
                    big > 0,
            ;
        }
    }
    let free1 = match checked_sub(free, cost) {
        None => return None,
        Some(v) => v,
    };
    let mut orders: Vec<MarketOrder> = Vec::new();
    orders.push(MarketOrder { isin: c.isin.clone(), order_type: MarketOrderType::Buy, count });
    assert(orders_view(orders@) =~= seq![OrderView { isin: c.isin@, order_type: MarketOrderType::Buy, count }]);
    if a.update_weights {
        let dw = match checked_div(cost, a.portfolio_value) {
            None => return None,
            Some(v) => v,
        };
        let old_w = match weights.get(&c.isin) {
            Some(w) => w,
            None => {
                let z = from_i64(0);
                proof {
                    lemma_from_i64_is_spec(z, 0);
                }
                z
            },
        };
        let w = match checked_add(old_w, dw) {
            None => return None,
            Some(v) => v,
        };
        let mut weights = weights;
        weights.insert(c.isin.clone(), w);
        Some(Spent { free_money: free1, weights, orders })
    } else {
        Some(Spent { free_money: free1, weights, orders })
    }
}

/// Spends the cash on the candidates in order, stopping when no cash is
/// left; `None` on decimal overflow.
pub fn allocate(cands: &Vec<Candidate>, free: Dec, weights: IsinMap<Dec>, a: &Allocation) -> (r: Option<Spent>)
    ensures
        r is Some <==> allocate_spec(cands_view(cands@), free, weights@, *a) is Some,
        r is Some ==> {
            let st = allocate_spec(cands_view(cands@), free, weights@, *a)->0;
            &&& r->0.free_money == st.free_money
            &&& r->0.weights@ == st.weights
            &&& orders_view(r->0.orders@) == allocation_orders(cands_view(cands@), free, weights@, *a)
        },
{
    let ghost free0 = free;
    let ghost weights0 = weights@;
    let mut cash = free;
    let mut held = weights;
    let mut orders: Vec<MarketOrder> = Vec::new();
    let n = cands.len();
    let mut i: usize = 0;
    assert(cands_view(cands@).skip(0) =~= cands_view(cands@));
    assert(orders_view(orders@) + allocation_orders(cands_view(cands@), cash, held@, *a) =~= allocation_orders(cands_view(cands@), cash, held@, *a));
    while i < n
        invariant
            n == cands_view(cands@).len(),
            i <= n,
            free0 == free,
            weights0 == weights@,
            allocate_spec(cands_view(cands@), free0, weights0, *a) == allocate_spec(cands_view(cands@).skip(i as int), cash, held@, *a),
            allocate_spec(cands_view(cands@), free0, weights0, *a) is Some ==> allocation_orders(cands_view(cands@), free0, weights0, *a)
                == orders_view(orders@) + allocation_orders(cands_view(cands@).skip(i as int), cash, held@, *a),
        ensures
            i == n || cash.val() <= 0,
            i <= n,
            free0 == free,
            weights0 == weights@,
            allocate_spec(cands_view(cands@), free0, weights0, *a) == allocate_spec(cands_view(cands@).skip(i as int), cash, held@, *a),
            allocate_spec(cands_view(cands@), free0, weights0, *a) is Some ==> allocation_orders(cands_view(cands@), free0, weights0, *a)
                == orders_view(orders@) + allocation_orders(cands_view(cands@).skip(i as int), cash, held@, *a),
        decreases n - i,
    {
        let ghost rest = cands_view(cands@).skip(i as int);
        assert(rest.skip(1) =~= cands_view(cands@).skip(i + 1));
        assert(rest[0] == cand_view(cands@[i as int]));
        if !is_positive(cash) {
            break;
        }
        match step(&cands[i], cash, held, a) {
            None => {
                assert(rest.len() > 0);
                assert(allocate_spec(rest, cash, held@, *a) is None);
                assert(allocate_spec(cands_view(cands@), free0, weights0, *a) is None);
                return None;
            },
            Some(spent) => {
                let ghost before = orders@;
                let mut new_orders = spent.orders;
                orders.append(&mut new_orders);
                assert(orders_view(orders@) =~= orders_view(before) + orders_view(spent.orders@));
                assert(orders_view(before) + (orders_view(spent.orders@) + allocation_orders(cands_view(cands@).skip(i + 1), spent.free_money, spent.weights@, *a))
                    =~= orders_view(orders@) + allocation_orders(cands_view(cands@).skip(i + 1), spent.free_money, spent.weights@, *a));
                cash = spent.free_money;
                held = spent.weights;
            },
        }
        i = i + 1;
    }
    assert(cands_view(cands@).skip(i as int).len() == n - i);
    assert(allocate_spec(cands_view(cands@).skip(i as int), cash, held@, *a) == Some(Step { free_money: cash, weights: held@, order: None }));
    assert(allocation_orders(cands_view(cands@).skip(i as int), cash, held@, *a) =~= Seq::<OrderView>::empty());
    assert(orders_view(orders@) + Seq::<OrderView>::empty() =~= orders_view(orders@));
    Some(Spent { free_money: cash, weights: held, orders })
}

/// The weight of each positive holding that has a price:
/// `price * count / portfolio_value`, in the order of the holdings.
pub open spec fn initial_weights_spec(
    counts: Seq<(Seq<char>, i64)>,
    prices: Seq<(Seq<char>, Dec)>,
    pv: Dec,
) -> Option<Seq<(Seq<char>, Dec)>>
    decreases counts.len(),
{
    if counts.len() == 0 {
        Some(Seq::empty())
    } else {
        let (isin, count) = counts.last();
        match initial_weights_spec(counts.drop_last(), prices, pv) {
            None => None,
            Some(w) => if count <= 0 {
                Some(w)
            } else {
                match lookup(prices, isin) {
                    None => Some(w),
                    Some(p) => match decimal_checked_mul(p, spec_from_i64(count)) {
                        None => None,
                        Some(v) => match decimal_checked_div(v, pv) {
                            None => None,
                            Some(x) => Some(store(w, isin, x)),
                        },
                    },
                }
            },
        }
    }
}

/// A failed prefix makes a fold over the holdings fail.
pub proof fn lemma_weights_none_stays(counts: Seq<(Seq<char>, i64)>, prices: Seq<(Seq<char>, Dec)>, pv: Dec, k: int)
    requires
        0 <= k <= counts.len(),
        initial_weights_spec(counts.take(k), prices, pv) is None,
    ensures
        initial_weights_spec(counts, prices, pv) is None,
    decreases counts.len() - k,
{
    if k < counts.len() {
        assert(counts.take(k + 1).drop_last() =~= counts.take(k));
        lemma_weights_none_stays(counts, prices, pv, k + 1);
    } else {
        assert(counts.take(k) =~= counts);
    }
}

/// The weight of a position is its value over the portfolio value: each
/// positive holding with a price weighs `price * count / pv`, and no other
/// bond has a weight.
pub proof fn law_initial_weight_is_position_value_share(
    counts: Seq<(Seq<char>, i64)>,
    prices: Seq<(Seq<char>, Dec)>,
    pv: Dec,
)
    requires
        keys_distinct(counts),
    ensures
        initial_weights_spec(counts, prices, pv) matches Some(w) ==> {
            &&& keys_distinct(w)
            &&& forall|j: int| 0 <= j < counts.len() && (#[trigger] counts[j]).1 > 0 && lookup(prices, counts[j].0) is Some
                ==> (decimal_checked_mul(lookup(prices, counts[j].0)->0, spec_from_i64(counts[j].1)) matches Some(v)
                    && lookup(w, counts[j].0) is Some && decimal_checked_div(v, pv) == lookup(w, counts[j].0))
            &&& forall|k: Seq<char>| #[trigger] lookup(w, k) is Some ==> exists|j: int| 0 <= j < counts.len()
                && counts[j].0 == k && counts[j].1 > 0 && lookup(prices, k) is Some
        },
    decreases counts.len(),
{
    if counts.len() > 0 {
        let t = counts.drop_last();
        assert(keys_distinct(t)) by {
            assert forall|i: int, j: int| 0 <= i < t.len() && 0 <= j < t.len() && i != j implies t[i].0 != t[j].0 by {
                assert(t[i] == counts[i] && t[j] == counts[j]);
            }
        }
        law_initial_weight_is_position_value_share(t, prices, pv);
        let last = counts.len() - 1;
        assert(counts[last] == counts.last());
        match initial_weights_spec(counts, prices, pv) {
            None => {},
            Some(w) => {
                let w0 = initial_weights_spec(t, prices, pv)->0;
                let (isin, count) = counts.last();
                if w != w0 {
                    let v = decimal_checked_mul(lookup(prices, isin)->0, spec_from_i64(count))->0;
                    assert(w == store(w0, isin, decimal_checked_div(v, pv)->0));
                    crate::keyed_map::lemma_store(w0, isin, decimal_checked_div(v, pv)->0);
                }
                assert forall|j: int| 0 <= j < counts.len() && (#[trigger] counts[j]).1 > 0 && lookup(prices, counts[j].0) is Some
                    implies (decimal_checked_mul(lookup(prices, counts[j].0)->0, spec_from_i64(counts[j].1)) matches Some(v)
                        && lookup(w, counts[j].0) is Some && decimal_checked_div(v, pv) == lookup(w, counts[j].0)) by {
                    if j < last {
                        assert(t[j] == counts[j]);
                        assert(counts[j].0 != isin);
                    }
                }
                assert forall|k: Seq<char>| #[trigger] lookup(w, k) is Some implies exists|j: int| 0 <= j < counts.len()
                    && counts[j].0 == k && counts[j].1 > 0 && lookup(prices, k) is Some by {
                    if k != isin || w == w0 {
                        if lookup(w0, k) is Some {
                            let j = choose|j: int| 0 <= j < t.len() && t[j].0 == k && t[j].1 > 0 && lookup(prices, k) is Some;
                            assert(counts[j] == t[j]);
                        }
                    }
                }
            },
        }
    }
}

/// The current weights of the positions (`None` on decimal overflow).
pub fn initial_weights(portfolio: &Portfolio, prices: &IsinMap<Dec>, pv: Dec) -> (r: Option<IsinMap<Dec>>)
    ensures
        r is Some <==> initial_weights_spec(portfolio.bonds_count@, prices@, pv) is Some,
        r is Some ==> r->0@ == initial_weights_spec(portfolio.bonds_count@, prices@, pv)->0,
{
    let counts = &portfolio.bonds_count;
    let n = counts.len();
    let mut w: IsinMap<Dec> = IsinMap::new();
    let mut i: usize = 0;
    while i < n
        invariant
            counts@ == portfolio.bonds_count@,
            n == counts@.len(),
            i <= n,
            initial_weights_spec(counts@.take(i as int), prices@, pv) == Some(w@),
        decreases n - i,
    {
        assert(counts@.take(i + 1).drop_last() =~= counts@.take(i as int));
        assert(counts@.take(i + 1).last() == counts@[i as int]);
        let count = counts.value_at(i);
        if count > 0 {
            match prices.get(counts.key_at(i)) {
                None => {},
                Some(p) => {
                    let c = from_i64(count);
                    proof {
                        lemma_from_i64_is_spec(c, count);
                    }
                    let x = match checked_mul(p, c) {
                        None => None,
                        Some(v) => checked_div(v, pv),
                    };
                    match x {
                        None => {
                            proof {
                                lemma_weights_none_stays(counts@, prices@, pv, i + 1);
                            }
                            return None;
                        },
                        Some(x) => {
                            w.insert(counts.key_at(i).clone(), x);
                        },
                    }
                },
            }
        }
        i = i + 1;
    }
    assert(counts@.take(n as int) =~= counts@);
    Some(w)
}

/// The face value recorded for a bond, if any.
pub open spec fn facevalue_of(infos: Seq<(Seq<char>, BondPersistentInfo)>, isin: Seq<char>) -> Option<Dec> {
    match lookup(infos, isin) {
        Some(info) => info.bond_info.facevalue,
        None => None,
    }
}

/// The face value recorded for a bond, if any.
pub fn facevalue_in(infos: &IsinMap<BondPersistentInfo>, isin: &String) -> (r: Option<Dec>)
    ensures
        r == facevalue_of(infos@, isin@),
{
    match infos.find(isin) {
        None => None,
        Some(i) => {
            proof {
                crate::keyed_map::lemma_lookup_at(infos@, i as int);
            }
            infos.value_ref(i).bond_info.facevalue
        },
    }
}

/// Stop-loss sales: every positive holding with a price whose percent of the
/// face value is above zero and below `stop_loss_pct` is sold in full, in the
/// order of the holdings.
pub open spec fn stop_loss_spec(
    counts: Seq<(Seq<char>, i64)>,
    prices: Seq<(Seq<char>, Dec)>,
    infos: Seq<(Seq<char>, BondPersistentInfo)>,
    stop_loss_pct: Dec,
) -> Option<Seq<OrderView>>
    decreases counts.len(),
{
    if counts.len() == 0 {
        Some(Seq::empty())
    } else {
        let (isin, count) = counts.last();
        match stop_loss_spec(counts.drop_last(), prices, infos, stop_loss_pct) {
            None => None,
            Some(os) => if count <= 0 {
                Some(os)
            } else {
                match lookup(prices, isin) {
                    None => Some(os),
                    Some(p) => match price_percent_spec(p, facevalue_of(infos, isin)) {
                        None => None,
                        Some(pct) => if pct.val() < stop_loss_pct.val() && pct.val() > 0 {
                            Some(os.push(OrderView { isin, order_type: MarketOrderType::Sell, count }))
                        } else {
                            Some(os)
                        },
                    },
                }
            },
        }
    }
}

/// A failed prefix makes the stop-loss fold fail.
pub proof fn lemma_stop_loss_none_stays(
    counts: Seq<(Seq<char>, i64)>,
    prices: Seq<(Seq<char>, Dec)>,
    infos: Seq<(Seq<char>, BondPersistentInfo)>,
    stop_loss_pct: Dec,
    k: int,
)
    requires
        0 <= k <= counts.len(),
        stop_loss_spec(counts.take(k), prices, infos, stop_loss_pct) is None,
    ensures
        stop_loss_spec(counts, prices, infos, stop_loss_pct) is None,
    decreases counts.len() - k,
{
    if k < counts.len() {
        assert(counts.take(k + 1).drop_last() =~= counts.take(k));
        lemma_stop_loss_none_stays(counts, prices, infos, stop_loss_pct, k + 1);
    } else {
        assert(counts.take(k) =~= counts);
    }
}

/// The stop-loss sales (`None` on decimal overflow).
pub fn stop_loss_orders(
    portfolio: &Portfolio,
    prices: &IsinMap<Dec>,
    infos: &IsinMap<BondPersistentInfo>,
    stop_loss_pct: Dec,
) -> (r: Option<Vec<MarketOrder>>)
    ensures
        r is Some <==> stop_loss_spec(portfolio.bonds_count@, prices@, infos@, stop_loss_pct) is Some,
        r is Some ==> orders_view(r->0@) == stop_loss_spec(portfolio.bonds_count@, prices@, infos@, stop_loss_pct)->0,
{
    let counts = &portfolio.bonds_count;
    let n = counts.len();
    let mut orders: Vec<MarketOrder> = Vec::new();
    let mut i: usize = 0;
    while i < n
        invariant
            counts@ == portfolio.bonds_count@,
            n == counts@.len(),
            i <= n,
            stop_loss_spec(counts@.take(i as int), prices@, infos@, stop_loss_pct) == Some(orders_view(orders@)),
        decreases n - i,
    {
        assert(counts@.take(i + 1).drop_last() =~= counts@.take(i as int));
        assert(counts@.take(i + 1).last() == counts@[i as int]);
        let count = counts.value_at(i);
        if count > 0 {
            let isin = counts.key_at(i);
            match prices.get(isin) {
                None => {},
                Some(p) => match price_percent(p, facevalue_in(infos, isin)) {
                    None => {
                        proof {
                            lemma_stop_loss_none_stays(counts@, prices@, infos@, stop_loss_pct, i + 1);
                        }
                        return None;
                    },
                    Some(pct) => {
                        if lt(pct, stop_loss_pct) && is_positive(pct) {
                            let ghost before = orders@;
                            orders.push(MarketOrder { isin: isin.clone(), order_type: MarketOrderType::Sell, count });
                            assert(orders_view(orders@) =~= orders_view(before).push(
                                OrderView { isin: isin@, order_type: MarketOrderType::Sell, count },
                            ));
                        }
                    },
                },
            }
        }
        i = i + 1;
    }
    assert(counts@.take(n as int) =~= counts@);
    Some(orders)
}

/// Whether an order for `isin` is in the list.
pub open spec fn has_order_for(orders: Seq<OrderView>, isin: Seq<char>) -> bool {
    exists|i: int| 0 <= i < orders.len() && orders[i].isin == isin
}

/// Whether an order for `isin` is in the list.
pub fn has_order(orders: &Vec<MarketOrder>, isin: &String) -> (r: bool)
    ensures
        r == has_order_for(orders_view(orders@), isin@),
{
    let n = orders.len();
    let mut i: usize = 0;
    while i < n
        invariant
            n == orders@.len(),
            i <= n,
            forall|j: int| 0 <= j < i ==> orders_view(orders@)[j].isin != isin@,
        decreases n - i,
    {
        if orders[i].isin == *isin {
            assert(orders_view(orders@)[i as int].isin == isin@);
            return true;
        }
        i = i + 1;
    }
    false
}

/// The proceeds of the sales at the given prices, added to `free`, in order.
pub open spec fn with_proceeds(free: Dec, sales: Seq<OrderView>, prices: Seq<(Seq<char>, Dec)>) -> Option<Dec>
    decreases sales.len(),
{
    if sales.len() == 0 {
        Some(free)
    } else {
        let o = sales.last();
        match with_proceeds(free, sales.drop_last(), prices) {
            None => None,
            Some(acc) => if o.order_type == MarketOrderType::Sell && lookup(prices, o.isin) is Some {
                match decimal_checked_mul(lookup(prices, o.isin)->0, spec_from_i64(o.count)) {
                    None => None,
                    Some(v) => decimal_checked_add(acc, v),
                }
            } else {
                Some(acc)
            },
        }
    }
}

/// The free cash counting the proceeds of the sales (`None` on decimal
/// overflow).
pub fn add_proceeds(free: Dec, sales: &Vec<MarketOrder>, prices: &IsinMap<Dec>) -> (r: Option<Dec>)
    ensures
        r == with_proceeds(free, orders_view(sales@), prices@),
{
    let ghost sv = orders_view(sales@);
    let mut acc = free;
    let n = sales.len();
    let mut i: usize = 0;
    while i < n
        invariant
            n == sales@.len(),
            sv == orders_view(sales@),
            i <= n,
            with_proceeds(free, sv.take(i as int), prices@) == Some(acc),
        decreases n - i,
    {
        assert(sv.take(i + 1).drop_last() =~= sv.take(i as int));
        assert(sv.take(i + 1).last() == order_view(sales@[i as int]));
        let o = &sales[i];
        if o.order_type == MarketOrderType::Sell {
            match prices.get(&o.isin) {
                None => {},
                Some(p) => {
                    let c = from_i64(o.count);
                    proof {
                        lemma_from_i64_is_spec(c, o.count);
                    }
                    let next = match checked_mul(p, c) {
                        None => None,
                        Some(v) => checked_add(acc, v),
                    };
                    match next {
                        None => {
                            proof {
                                lemma_proceeds_none_stays(free, sv, prices@, i + 1);
                            }
                            return None;
                        },
                        Some(v) => {
                            acc = v;
                        },
                    }
                },
            }
        }
        i = i + 1;
    }
    assert(sv.take(n as int) =~= sv);
    Some(acc)
}

/// A failed prefix makes the proceeds fail.
pub proof fn lemma_proceeds_none_stays(free: Dec, sales: Seq<OrderView>, prices: Seq<(Seq<char>, Dec)>, k: int)
    requires
        0 <= k <= sales.len(),
        with_proceeds(free, sales.take(k), prices) is None,
    ensures
        with_proceeds(free, sales, prices) is None,
    decreases sales.len() - k,
{
    if k < sales.len() {
        assert(sales.take(k + 1).drop_last() =~= sales.take(k));
        lemma_proceeds_none_stays(free, sales, prices, k + 1);
    } else {
        assert(sales.take(k) =~= sales);
    }
}

/// The yield handed in for a bond, or -1.
pub open spec fn yield_of(yields: Seq<(Seq<char>, Dec)>, isin: Seq<char>) -> Dec {
    match lookup(yields, isin) {
        Some(y) => y,
        None => spec_from_i64(-1i64),
    }
}

/// The yield handed in for a bond, or -1.
pub fn yield_in(yields: &IsinMap<Dec>, isin: &String) -> (r: Dec)
    ensures
        r == yield_of(yields@, isin@),
{
    match yields.get(isin) {
        Some(y) => y,
        None => {
            let m = from_i64(-1);
            proof {
                lemma_from_i64_is_spec(m, -1i64);
            }
            m
        },
    }
}

/// Every sequence has a first index below a rank (possibly its length).
pub proof fn lemma_first_below_exists(s: Seq<CandidateView>, r: int)
    ensures
        is_first_below(s, r, first_below(s, r)),
    decreases s.len(),
{
    if s.len() == 0 {
        assert(is_first_below(s, r, 0));
    } else {
        let t = s.drop_last();
        lemma_first_below_exists(t, r);
        let q = first_below(t, r);
        if q < t.len() {
            assert(t[q] == s[q]);
            assert forall|k: int| 0 <= k < q implies s[k].rank.val() >= r by {
                assert(t[k] == s[k]);
            }
            assert(is_first_below(s, r, q));
        } else {
            assert forall|k: int| 0 <= k < t.len() implies s[k].rank.val() >= r by {
                assert(t[k] == s[k]);
            }
            if s.last().rank.val() < r {
                assert(is_first_below(s, r, t.len() as int));
            } else {
                assert(is_first_below(s, r, s.len() as int));
            }
        }
    }
}

/// Ranking orders the candidates from the highest rank down, and keeps every
/// candidate exactly once.
pub proof fn law_ranked_sorted_permutation(s: Seq<CandidateView>)
    ensures
        forall|i: int, j: int| 0 <= i < j < ranked(s).len() ==> #[trigger] ranked(s)[i].rank.val() >= #[trigger] ranked(s)[j].rank.val(),
        ranked(s).to_multiset() == s.to_multiset(),
        ranked(s).len() == s.len(),
    decreases s.len(),
{
    broadcast use vstd::seq_lib::to_multiset_insert, vstd::seq_lib::to_multiset_build;

    if s.len() == 0 {
        assert(ranked(s) =~= s);
    } else {
        let t = s.drop_last();
        law_ranked_sorted_permutation(t);
        let r = ranked(t);
        let x = s.last();
        let v = x.rank.val();
        lemma_first_below_exists(r, v);
        let p = first_below(r, v);
        let n = r.insert(p, x);
        assert(ranked(s) == n);
        assert forall|i: int, j: int| 0 <= i < j < n.len() implies #[trigger] n[i].rank.val() >= #[trigger] n[j].rank.val() by {
            if j < p {
                assert(n[i] == r[i] && n[j] == r[j]);
            } else if j == p {
                assert(n[i] == r[i]);
            } else if i < p {
                assert(n[i] == r[i] && n[j] == r[j - 1]);
                assert(r[i].rank.val() >= r[j - 1].rank.val());
            } else if i == p {
                assert(n[j] == r[j - 1]);
                assert(r[p].rank.val() < v);
                assert(p == j - 1 || r[p].rank.val() >= r[j - 1].rank.val());
            } else {
                assert(n[i] == r[i - 1] && n[j] == r[j - 1]);
            }
        }
        assert(s == t.push(x));
    }
}

/// A step of spending orders, if anything, a purchase of the candidate
/// itself: more than none, and no more than its day's volume.
pub proof fn lemma_step_order(c: CandidateView, free: Dec, weights: Seq<(Seq<char>, Dec)>, a: Allocation)
    requires
        step_spec(c, free, weights, a) is Some,
        step_spec(c, free, weights, a)->0.order is Some,
    ensures
        ({
            let o = step_spec(c, free, weights, a)->0.order->0;
            &&& o.isin == c.isin
            &&& o.order_type == MarketOrderType::Buy
            &&& 0 < o.count <= c.max_buy
        }),
{
}

/// The number of bonds bought of a candidate never exceeds the room left
/// under its position cap, nor the free cash, each divided by the price (and
/// taken whole, as the decimal division computes it), nor the day volume;
/// with no room under the cap, or no positive price, nothing is bought.
pub proof fn law_buy_count_within_caps(c: CandidateView, free: Dec, weights: Seq<(Seq<char>, Dec)>, a: Allocation)
    requires
        buy_count_spec(c, free, weights, a) is Some,
    ensures
        ({
            let n = buy_count_spec(c, free, weights, a)->0 as int;
            let existing = decimal_checked_mul(weight_of(weights, c.isin), a.portfolio_value)->0;
            let room = decimal_checked_sub(a.max_position_value, existing)->0;
            &&& (room.val() <= 0 || c.price.val() <= 0 ==> n == 0)
            &&& (n > 0 ==> {
                &&& n <= c.max_buy
                &&& room.val() > 0 && c.price.val() > 0
                &&& n <= crate::decimal::int_part(decimal_checked_div(room, c.price)->0)
                &&& n <= crate::decimal::int_part(decimal_checked_div(free, c.price)->0)
            })
        }),
{
}

/// The number of bonds bought of a candidate with room under its cap and a
/// positive price is the largest whole number within the room, the free cash
/// (each divided by the price) and the day volume: it is no more than each of
/// them and equals one of them.
pub proof fn law_buy_count_is_largest_within_caps(c: CandidateView, free: Dec, weights: Seq<(Seq<char>, Dec)>, a: Allocation)
    requires
        buy_count_spec(c, free, weights, a) is Some,
    ensures
        ({
            let n = buy_count_spec(c, free, weights, a)->0 as int;
            let existing = decimal_checked_mul(weight_of(weights, c.isin), a.portfolio_value)->0;
            let room = decimal_checked_sub(a.max_position_value, existing)->0;
            let by_weight = saturating_int(decimal_checked_div(room, c.price)->0) as int;
            let money = crate::decimal::int_part(decimal_checked_div(free, c.price)->0);
            let by_money = if i64::MIN <= money <= i64::MAX { money } else { 0 };
            room.val() > 0 && c.price.val() > 0 ==> {
                &&& n <= by_weight && n <= by_money && n <= c.max_buy
                &&& n == by_weight || n == by_money || n == c.max_buy
            }
        }),
{
}

/// Spending the cash only places purchases, each of a candidate, of more
/// than zero bonds and no more than the candidate's day volume.
pub proof fn law_allocation_orders_are_bounded_buys(
    cands: Seq<CandidateView>,
    free: Dec,
    weights: Seq<(Seq<char>, Dec)>,
    a: Allocation,
)
    ensures
        forall|i: int| 0 <= i < allocation_orders(cands, free, weights, a).len() ==> {
            let o = #[trigger] allocation_orders(cands, free, weights, a)[i];
            &&& o.order_type == MarketOrderType::Buy
            &&& o.count > 0
            &&& exists|j: int| 0 <= j < cands.len() && #[trigger] cands[j].isin == o.isin && o.count <= cands[j].max_buy
        },
    decreases cands.len(),
{
    if cands.len() == 0 || free.val() <= 0 {
    } else {
        match step_spec(cands[0], free, weights, a) {
            None => {},
            Some(st) => {
                let rest = cands.skip(1);
                law_allocation_orders_are_bounded_buys(rest, st.free_money, st.weights, a);
                let head = step_orders(st.order);
                let tail = allocation_orders(rest, st.free_money, st.weights, a);
                assert(allocation_orders(cands, free, weights, a) == head + tail);
                assert forall|i: int| 0 <= i < (head + tail).len() implies {
                    let o = #[trigger] (head + tail)[i];
                    &&& o.order_type == MarketOrderType::Buy
                    &&& o.count > 0
                    &&& exists|j: int| 0 <= j < cands.len() && #[trigger] cands[j].isin == o.isin && o.count <= cands[j].max_buy
                } by {
                    if i < head.len() {
                        lemma_step_order(cands[0], free, weights, a);
                        assert((head + tail)[i] == st.order->0);
                        assert(cands[0].isin == st.order->0.isin);
                    } else {
                        let o = tail[i - head.len()];
                        assert((head + tail)[i] == o);
                        let j = choose|j: int| 0 <= j < rest.len() && #[trigger] rest[j].isin == o.isin && o.count <= rest[j].max_buy;
                        assert(rest[j] == cands[j + 1]);
                    }
                }
            },
        }
    }
}

/// Stop-loss orders are all sales.
pub proof fn lemma_stop_loss_sells(
    counts: Seq<(Seq<char>, i64)>,
    prices: Seq<(Seq<char>, Dec)>,
    infos: Seq<(Seq<char>, BondPersistentInfo)>,
    stop_loss_pct: Dec,
)
    requires
        stop_loss_spec(counts, prices, infos, stop_loss_pct) is Some,
    ensures
        forall|i: int| 0 <= i < stop_loss_spec(counts, prices, infos, stop_loss_pct)->0.len() ==>
            (#[trigger] stop_loss_spec(counts, prices, infos, stop_loss_pct)->0[i]).order_type == MarketOrderType::Sell,
    decreases counts.len(),
{
    if counts.len() > 0 {
        lemma_stop_loss_sells(counts.drop_last(), prices, infos, stop_loss_pct);
    }
}

/// Whether a bond's price, in percent of its face value, has fallen below
/// the stop loss (and is above zero).
pub open spec fn below_stop_loss(
    prices: Seq<(Seq<char>, Dec)>,
    infos: Seq<(Seq<char>, BondPersistentInfo)>,
    isin: Seq<char>,
    stop_loss_pct: Dec,
) -> bool {
    &&& lookup(prices, isin) is Some
    &&& price_percent_spec(lookup(prices, isin)->0, facevalue_of(infos, isin)) matches Some(pct)
    &&& 0 < pct.val() < stop_loss_pct.val()
}

/// The stop loss sells, in full, exactly the positive holdings whose price
/// has fallen below the stop-loss percent of the face value.
pub proof fn law_stop_loss_sells_exactly_the_losers(
    counts: Seq<(Seq<char>, i64)>,
    prices: Seq<(Seq<char>, Dec)>,
    infos: Seq<(Seq<char>, BondPersistentInfo)>,
    stop_loss_pct: Dec,
)
    ensures
        stop_loss_spec(counts, prices, infos, stop_loss_pct) matches Some(os) ==> {
            &&& forall|i: int| 0 <= i < os.len() ==> {
                let o = #[trigger] os[i];
                &&& o.order_type == MarketOrderType::Sell
                &&& o.count > 0
                &&& below_stop_loss(prices, infos, o.isin, stop_loss_pct)
                &&& exists|j: int| 0 <= j < counts.len() && counts[j] == (o.isin, o.count)
            }
            &&& forall|j: int| 0 <= j < counts.len() && (#[trigger] counts[j]).1 > 0
                && below_stop_loss(prices, infos, counts[j].0, stop_loss_pct)
                ==> exists|i: int| 0 <= i < os.len()
                    && os[i] == (OrderView { isin: counts[j].0, order_type: MarketOrderType::Sell, count: counts[j].1 })
        },
    decreases counts.len(),
{
    if counts.len() > 0 {
        let t = counts.drop_last();
        law_stop_loss_sells_exactly_the_losers(t, prices, infos, stop_loss_pct);
        let last = counts.len() - 1;
        assert(counts[last] == counts.last());
        match stop_loss_spec(counts, prices, infos, stop_loss_pct) {
            None => {},
            Some(os) => {
                let prev = stop_loss_spec(t, prices, infos, stop_loss_pct)->0;
                assert forall|i: int| 0 <= i < os.len() implies {
                    let o = #[trigger] os[i];
                    &&& o.order_type == MarketOrderType::Sell
                    &&& o.count > 0
                    &&& below_stop_loss(prices, infos, o.isin, stop_loss_pct)
                    &&& exists|j: int| 0 <= j < counts.len() && counts[j] == (o.isin, o.count)
                } by {
                    if i < prev.len() {
                        assert(os[i] == prev[i]);
                        let j = choose|j: int| 0 <= j < t.len() && t[j] == (prev[i].isin, prev[i].count);
                        assert(counts[j] == t[j]);
                    }
                }
                assert forall|j: int| 0 <= j < counts.len() && (#[trigger] counts[j]).1 > 0
                    && below_stop_loss(prices, infos, counts[j].0, stop_loss_pct)
                    implies exists|i: int| 0 <= i < os.len()
                        && os[i] == (OrderView { isin: counts[j].0, order_type: MarketOrderType::Sell, count: counts[j].1 }) by {
                    if j < last {
                        assert(t[j] == counts[j]);
                        let i = choose|i: int| 0 <= i < prev.len()
                            && prev[i] == (OrderView { isin: t[j].0, order_type: MarketOrderType::Sell, count: t[j].1 });
                        assert(os[i] == prev[i]);
                    } else {
                        assert(os[os.len() - 1] == (OrderView { isin: counts[j].0, order_type: MarketOrderType::Sell, count: counts[j].1 }));
                    }
                }
            },
        }
    }
}

/// Every candidate of a ranking is one of the candidates ranked.
pub proof fn lemma_ranked_members(s: Seq<CandidateView>, i: int)
    requires
        0 <= i < ranked(s).len(),
    ensures
        s.contains(ranked(s)[i]),
{
    broadcast use vstd::seq_lib::group_to_multiset_ensures;

    law_ranked_sorted_permutation(s);
    assert(ranked(s).contains(ranked(s)[i]));
    assert(ranked(s).to_multiset().count(ranked(s)[i]) > 0);
}

} // verus!
