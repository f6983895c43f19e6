//! Backtests over historical data: turning database records into bond
//! information, and the steps of each simulated day.
use crate::decimal::{
    checked_add, checked_div, checked_mul, checked_sub, decimal_checked_add, decimal_checked_div, decimal_checked_mul, decimal_checked_sub, from_i64, is_positive, is_zero, lt, pow10, zero,
    Dec, abs, lemma_pow10_positive, product_fits_after, quotient_fits_at, sum_is_exact, two32,
};
use crate::keyed_map::{
    entries_view_str, has_key, key_index, keys_distinct, lemma_lookup_at, lemma_store_map_values, lemma_view_str_keys, lookup, map_values,
    store, without_day, IsinMap, KeyedMap,
};
use crate::model::{
    lemma_from_i64_is_spec, spec_from_i64, BondCommonInfo, BondPersistentInfo, Date, MarketOrder, MarketOrderType,
    PaymentInfo, PaymentType, Portfolio, PortfolioView, portfolio_view,
};
use crate::simulator::{
    account_value, held_of, holds_nothing, lemma_account_value, lemma_idle_account_value, outcome_of,
    payment_credit_in, portfolio_value_spec, redemption_credit_in, saturating_int,
    saturating_to_i64, payment_view, payments_view, trade_view, trades_view, MarketSimulator, OrderError,
    PaymentEvent, PaymentView, PortfolioSnapshot, PriceEntry, TradeEvent, TradeView,
};
use crate::strategy::{order_view, orders_view, OrderView, Strategy};
use vstd::prelude::*;

verus! {

/// A row of the bond table.
pub struct BondRecord {
    pub id: i64,
    pub isin: Option<String>,
    pub title: Option<String>,
    pub is_subordinated: Option<bool>,
    pub issue_volume: Option<i64>,
    pub placement_date: Option<Date>,
    pub maturity_date: Option<Date>,
    pub currency_id: Option<i64>,
    pub board: Option<String>,
    pub facevalue: Option<Dec>,
    pub start_facevalue: Option<Dec>,
    pub is_for_qualified_investors: Option<bool>,
    pub is_traded: bool,
}

/// A row of the payment table.
#[derive(Clone, Copy)]
pub struct PaymentRecord {
    pub date: Option<Date>,
    /// Amount in roubles.
    pub size: Option<Dec>,
    pub bond_id: Option<i64>,
    /// 1: amortization, 2: coupon, 14: redemption.
    pub type_id: Option<i64>,
}

/// A row of the coupon table (the current coupon of a bond).
#[derive(Clone, Copy)]
pub struct CouponRecord {
    pub size: Option<Dec>,
    pub period: Option<i16>,
    pub aci: Option<Dec>,
}

/// A day's candle of a bond.
#[derive(Clone, Copy)]
pub struct CandleRecord {
    pub date: Date,
    pub bond_id: i64,
    pub open: Option<Dec>,
    pub close: Option<Dec>,
    pub low: Option<Dec>,
    pub high: Option<Dec>,
    pub volume: Option<Dec>,
    pub facevalue: Option<Dec>,
    pub accint: Option<Dec>,
}

/// A payment of a bond by ISIN.
pub struct IsinPayment {
    pub isin: String,
    pub date: Date,
    pub amount: Dec,
    pub kind: PaymentType,
}

/// An ISIN payment as a value of the model.
pub struct IsinPaymentView {
    pub isin: Seq<char>,
    pub date: Date,
    pub amount: Dec,
    pub kind: PaymentType,
}

pub open spec fn isin_payment_view(p: IsinPayment) -> IsinPaymentView {
    IsinPaymentView { isin: p.isin@, date: p.date, amount: p.amount, kind: p.kind }
}

pub open spec fn isin_payments_view(s: Seq<IsinPayment>) -> Seq<IsinPaymentView> {
    Seq::new(s.len(), |i: int| isin_payment_view(s[i]))
}

/// The map from bond id to ISIN of the bonds that have one (a later bond
/// with the same id replaces an earlier one).
pub open spec fn bond_isins_spec(bonds: Seq<BondRecord>) -> Seq<(i64, Seq<char>)>
    decreases bonds.len(),
{
    if bonds.len() == 0 {
        Seq::empty()
    } else {
        let rest = bond_isins_spec(bonds.drop_last());
        let b = bonds.last();
        match b.isin {
            Some(isin) => store(rest, b.id, isin@),
            None => rest,
        }
    }
}

/// The map from bond id to ISIN.
pub fn bond_isins(bonds: &Vec<BondRecord>) -> (r: KeyedMap<i64, String>)
    ensures
        crate::keyed_map::entries_view_str(r@) == bond_isins_spec(bonds@),
{
    let mut m: KeyedMap<i64, String> = KeyedMap::new();
    let n = bonds.len();
    let mut i: usize = 0;
    while i < n
        invariant
            n == bonds@.len(),
            i <= n,
            crate::keyed_map::entries_view_str(m@) == bond_isins_spec(bonds@.take(i as int)),
        decreases n - i,
    {
        assert(bonds@.take(i + 1).drop_last() =~= bonds@.take(i as int));
        assert(bonds@.take(i + 1).last() == bonds@[i as int]);
        match &bonds[i].isin {
            Some(isin) => {
                let ghost before = m@;
                let copy = isin.clone();
                let ghost copy_g = copy;
                m.insert(bonds[i].id, copy);
                proof {
                    crate::keyed_map::lemma_store_str(before, bonds[i as int].id, copy_g);
                }
            },
            None => {},
        }
        i = i + 1;
    }
    assert(bonds@.take(n as int) =~= bonds@);
    m
}

/// The kind of a payment by its type id: 1 amortization, 2 coupon,
/// 14 redemption; other payments are ignored.
pub open spec fn payment_kind(type_id: Option<i64>) -> Option<PaymentType> {
    match type_id {
        Some(1) => Some(PaymentType::Amortization),
        Some(2) => Some(PaymentType::Coupon),
        Some(14) => Some(PaymentType::Redemption),
        _ => None,
    }
}

/// A payment row as a payment of a known bond: it needs a day, a positive
/// size, a bond with an ISIN and a known type.
pub open spec fn record_payment(p: PaymentRecord, isins: Seq<(i64, Seq<char>)>) -> Option<IsinPaymentView> {
    match (p.date, p.size, p.bond_id) {
        (Some(date), Some(size), Some(bond_id)) => if size.val() <= 0 {
            None
        } else {
            match (lookup(isins, bond_id), payment_kind(p.type_id)) {
                (Some(isin), Some(kind)) => Some(IsinPaymentView { isin, date, amount: size, kind }),
                _ => None,
            }
        },
        _ => None,
    }
}

/// The payments of known bonds, in the order of the rows.
pub open spec fn flat_payments_spec(records: Seq<PaymentRecord>, isins: Seq<(i64, Seq<char>)>) -> Seq<IsinPaymentView>
    decreases records.len(),
{
    if records.len() == 0 {
        Seq::empty()
    } else {
        let rest = flat_payments_spec(records.drop_last(), isins);
        match record_payment(records.last(), isins) {
            Some(p) => rest.push(p),
            None => rest,
        }
    }
}

/// An optional string by its view.
pub open spec fn opt_str(o: Option<String>) -> Option<Seq<char>> {
    match o {
        Some(s) => Some(s@),
        None => None,
    }
}

/// The ISIN of a bond id.
pub fn isin_of(isins: &KeyedMap<i64, String>, id: i64) -> (r: Option<String>)
    ensures
        opt_str(r) == lookup(entries_view_str(isins@), id),
{
    proof {
        lemma_view_str_keys(isins@, id);
    }
    match isins.find(&id) {
        Some(i) => {
            proof {
                lemma_lookup_at(isins@, i as int);
                lemma_lookup_at(entries_view_str(isins@), i as int);
            }
            Some(isins.value_ref(i).clone())
        },
        None => None,
    }
}

/// The kind of a payment by its type id.
pub fn kind_of(type_id: Option<i64>) -> (r: Option<PaymentType>)
    ensures
        r == payment_kind(type_id),
{
    match type_id {
        Some(1) => Some(PaymentType::Amortization),
        Some(2) => Some(PaymentType::Coupon),
        Some(14) => Some(PaymentType::Redemption),
        _ => None,
    }
}

/// The payments of known bonds (positive, of a known type), in row order.
pub fn flatten_payments(records: &Vec<PaymentRecord>, isins: &KeyedMap<i64, String>) -> (r: Vec<IsinPayment>)
    ensures
        isin_payments_view(r@) == flat_payments_spec(records@, entries_view_str(isins@)),
{
    let ghost iv = entries_view_str(isins@);
    let mut out: Vec<IsinPayment> = Vec::new();
    let n = records.len();
    let mut i: usize = 0;
    while i < n
        invariant
            n == records@.len(),
            i <= n,
            iv == entries_view_str(isins@),
            isin_payments_view(out@) == flat_payments_spec(records@.take(i as int), iv),
        decreases n - i,
    {
        assert(records@.take(i + 1).drop_last() =~= records@.take(i as int));
        assert(records@.take(i + 1).last() == records@[i as int]);
        let p = records[i];
        let ghost before = out@;
        if let (Some(date), Some(size), Some(bond_id)) = (p.date, p.size, p.bond_id) {
            if is_positive(size) {
                if let Some(isin) = isin_of(isins, bond_id) {
                    if let Some(kind) = kind_of(p.type_id) {
                        out.push(IsinPayment { isin, date, amount: size, kind });
                        assert(isin_payments_view(out@) =~= isin_payments_view(before).push(isin_payment_view(out@.last())));
                    }
                }
            }
        }
        i = i + 1;
    }
    assert(records@.take(n as int) =~= records@);
    out
}

/// The payments of one bond, in order.
pub open spec fn payments_of_spec(flat: Seq<IsinPaymentView>, isin: Seq<char>) -> Seq<PaymentInfo>
    decreases flat.len(),
{
    if flat.len() == 0 {
        Seq::empty()
    } else {
        let rest = payments_of_spec(flat.drop_last(), isin);
        let p = flat.last();
        if p.isin == isin {
            rest.push(PaymentInfo { date: p.date, amount: p.amount, payment_type: p.kind })
        } else {
            rest
        }
    }
}

/// The payments of one bond.
pub fn payments_of(flat: &Vec<IsinPayment>, isin: &String) -> (r: Vec<PaymentInfo>)
    ensures
        r@ == payments_of_spec(isin_payments_view(flat@), isin@),
{
    let ghost fv = isin_payments_view(flat@);
    let mut out: Vec<PaymentInfo> = Vec::new();
    let n = flat.len();
    let mut i: usize = 0;
    while i < n
        invariant
            n == flat@.len(),
            i <= n,
            fv == isin_payments_view(flat@),
            out@ == payments_of_spec(fv.take(i as int), isin@),
        decreases n - i,
    {
        assert(fv.take(i + 1).drop_last() =~= fv.take(i as int));
        assert(fv.take(i + 1).last() == isin_payment_view(flat@[i as int]));
        if flat[i].isin == *isin {
            out.push(PaymentInfo { date: flat[i].date, amount: flat[i].amount, payment_type: flat[i].kind });
        }
        i = i + 1;
    }
    assert(fv.take(n as int) =~= fv);
    out
}

/// The coupon amounts among the payments, in order.
pub open spec fn coupon_amounts(ps: Seq<PaymentInfo>) -> Seq<Dec>
    decreases ps.len(),
{
    if ps.len() == 0 {
        Seq::empty()
    } else {
        let rest = coupon_amounts(ps.drop_last());
        if ps.last().payment_type == PaymentType::Coupon {
            rest.push(ps.last().amount)
        } else {
            rest
        }
    }
}

/// Whether a coupon differs from the first by more than one kopeck (a
/// difference too large to represent counts as differing).
pub open spec fn differs_from(c: Dec, first: Dec) -> bool {
    match decimal_checked_sub(c, first) {
        None => true,
        Some(d) => d.val() > pow10(26) || d.val() < -pow10(26),
    }
}

/// A floating-rate bond: at least two coupons, and some coupon differs from
/// the first by more than 0.01.
pub open spec fn floater_spec(ps: Seq<PaymentInfo>) -> bool {
    let c = coupon_amounts(ps);
    c.len() >= 2 && exists|i: int| 0 <= i < c.len() && #[trigger] differs_from(c[i], c[0])
}

/// Whether a bond's coupons float.
pub fn is_floater(payments: &Vec<PaymentInfo>) -> (r: bool)
    ensures
        r == floater_spec(payments@),
{
    let mut coupons: Vec<Dec> = Vec::new();
    let n = payments.len();
    let mut i: usize = 0;
    while i < n
        invariant
            n == payments@.len(),
            i <= n,
            coupons@ == coupon_amounts(payments@.take(i as int)),
        decreases n - i,
    {
        assert(payments@.take(i + 1).drop_last() =~= payments@.take(i as int));
        if payments[i].payment_type == PaymentType::Coupon {
            coupons.push(payments[i].amount);
        }
        i = i + 1;
    }
    assert(payments@.take(n as int) =~= payments@);
    if coupons.len() < 2 {
        return false;
    }
    let cent = Dec::new(1, 2).unwrap();
    let minus_cent = Dec::new(-1, 2).unwrap();
    let first = coupons[0];
    let m = coupons.len();
    let mut j: usize = 0;
    while j < m
        invariant
            m == coupons@.len(),
            coupons@ == coupon_amounts(payments@),
            m >= 2,
            j <= m,
            first == coupons@[0],
            cent.val() == pow10(26),
            minus_cent.val() == -pow10(26),
            forall|k: int| 0 <= k < j ==> !differs_from(#[trigger] coupons@[k], first),
        decreases m - j,
    {
        let differs = match checked_sub(coupons[j], first) {
            None => true,
            Some(d) => lt(cent, d) || lt(d, minus_cent),
        };
        if differs {
            assert(differs_from(coupons@[j as int], coupons@[0]));
            return true;
        }
        j = j + 1;
    }
    false
}

/// The currency id of the rouble.
pub const RUB_CURRENCY_ID: i64 = 3;

/// The facts of a bond as the strategies see them: the row, the offer and
/// default days and the current coupon of its id.
pub open spec fn common_info_spec(
    b: BondRecord,
    offers: Seq<(i64, Date)>,
    defaults: Seq<(i64, Date)>,
    coupons: Seq<(i64, CouponRecord)>,
) -> BondCommonInfo {
    let coupon = lookup(coupons, b.id);
    BondCommonInfo {
        isin: b.isin->0,
        currency_id: b.currency_id,
        title: b.title,
        is_subordinated: b.is_subordinated,
        issue_volume: b.issue_volume,
        placement_date: b.placement_date,
        maturity_date: b.maturity_date,
        facevalue: b.facevalue,
        start_facevalue: b.start_facevalue,
        board: b.board,
        is_for_qualified_investors: b.is_for_qualified_investors,
        is_traded: b.is_traded,
        offer_date: lookup(offers, b.id),
        default_date: lookup(defaults, b.id),
        coupon_size: match coupon {
            Some(c) => c.size,
            None => None,
        },
        coupon_period: match coupon {
            Some(c) => c.period,
            None => None,
        },
        coupon_aci: match coupon {
            Some(c) => c.aci,
            None => None,
        },
    }
}

/// The bonds the backtest trades: rouble bonds with an ISIN, not on the
/// structural-bond board, and without floating coupons.
pub open spec fn tradable(b: BondRecord, flat: Seq<IsinPaymentView>) -> bool {
    &&& b.currency_id == Some(RUB_CURRENCY_ID)
    &&& !(b.board is Some && b.board->0@ == "TQIR"@)
    &&& b.isin is Some
    &&& !floater_spec(payments_of_spec(flat, b.isin->0@))
}

/// A bond's information as a value of the model: its facts and the view of
/// its payments.
pub open spec fn info_view(i: BondPersistentInfo) -> (BondCommonInfo, Seq<PaymentInfo>) {
    (i.bond_info, i.payments@)
}

pub open spec fn info_view_fn() -> spec_fn(BondPersistentInfo) -> (BondCommonInfo, Seq<PaymentInfo>) {
    |i: BondPersistentInfo| info_view(i)
}

/// A map of bond information as a value of the model.
pub open spec fn infos_view(s: Seq<(Seq<char>, BondPersistentInfo)>) -> Seq<(Seq<char>, (BondCommonInfo, Seq<PaymentInfo>))> {
    map_values(s, info_view_fn())
}

/// The information of the tradable bonds by ISIN (a later row with the same
/// ISIN replaces an earlier one).
pub open spec fn bonds_info_spec(
    bonds: Seq<BondRecord>,
    flat: Seq<IsinPaymentView>,
    offers: Seq<(i64, Date)>,
    defaults: Seq<(i64, Date)>,
    coupons: Seq<(i64, CouponRecord)>,
) -> Seq<(Seq<char>, (BondCommonInfo, Seq<PaymentInfo>))>
    decreases bonds.len(),
{
    if bonds.len() == 0 {
        Seq::empty()
    } else {
        let rest = bonds_info_spec(bonds.drop_last(), flat, offers, defaults, coupons);
        let b = bonds.last();
        if tradable(b, flat) {
            store(
                rest,
                b.isin->0@,
                (common_info_spec(b, offers, defaults, coupons), payments_of_spec(flat, b.isin->0@)),
            )
        } else {
            rest
        }
    }
}

/// A copy of an optional string.
fn copy_opt_str(o: &Option<String>) -> (r: Option<String>)
    ensures
        r == *o,
{
    match o {
        Some(s) => Some(s.clone()),
        None => None,
    }
}

/// The facts of one bond.
fn common_info(
    b: &BondRecord,
    isin: &String,
    offers: &KeyedMap<i64, Date>,
    defaults: &KeyedMap<i64, Date>,
    coupons: &KeyedMap<i64, CouponRecord>,
) -> (r: BondCommonInfo)
    requires
        b.isin == Some(*isin),
    ensures
        r == common_info_spec(*b, offers@, defaults@, coupons@),
{
    let coupon = coupons.get(&b.id);
    BondCommonInfo {
        isin: isin.clone(),
        currency_id: b.currency_id,
        title: copy_opt_str(&b.title),
        is_subordinated: b.is_subordinated,
        issue_volume: b.issue_volume,
        placement_date: b.placement_date,
        maturity_date: b.maturity_date,
        facevalue: b.facevalue,
        start_facevalue: b.start_facevalue,
        board: copy_opt_str(&b.board),
        is_for_qualified_investors: b.is_for_qualified_investors,
        is_traded: b.is_traded,
        offer_date: offers.get(&b.id),
        default_date: defaults.get(&b.id),
        coupon_size: match coupon {
            Some(c) => c.size,
            None => None,
        },
        coupon_period: match coupon {
            Some(c) => c.period,
            None => None,
        },
        coupon_aci: match coupon {
            Some(c) => c.aci,
            None => None,
        },
    }
}

/// The information of the tradable bonds (rouble, not structural, not
/// floating, with an ISIN), by ISIN, with their payments.
pub fn build_bonds_info(
    bonds: &Vec<BondRecord>,
    flat: &Vec<IsinPayment>,
    offers: &KeyedMap<i64, Date>,
    defaults: &KeyedMap<i64, Date>,
    coupons: &KeyedMap<i64, CouponRecord>,
) -> (r: IsinMap<BondPersistentInfo>)
    ensures
        infos_view(r@) == bonds_info_spec(bonds@, isin_payments_view(flat@), offers@, defaults@, coupons@),
{
    let ghost fv = isin_payments_view(flat@);
    let tqir = String::from_str("TQIR");
    let mut m: IsinMap<BondPersistentInfo> = KeyedMap::new();
    let n = bonds.len();
    let mut i: usize = 0;
    while i < n
        invariant
            n == bonds@.len(),
            i <= n,
            fv == isin_payments_view(flat@),
            tqir@ == "TQIR"@,
            infos_view(m@) == bonds_info_spec(bonds@.take(i as int), fv, offers@, defaults@, coupons@),
        decreases n - i,
    {
        assert(bonds@.take(i + 1).drop_last() =~= bonds@.take(i as int));
        assert(bonds@.take(i + 1).last() == bonds@[i as int]);
        let b = &bonds[i];
        let structural = match &b.board {
            Some(bd) => *bd == tqir,
            None => false,
        };
        if b.currency_id == Some(RUB_CURRENCY_ID) && !structural {
            if let Some(isin) = &b.isin {
                let payments = payments_of(flat, isin);
                if !is_floater(&payments) {
                    let info = BondPersistentInfo {
                        bond_info: common_info(b, isin, offers, defaults, coupons),
                        payments,
                    };
                    let ghost before = m@;
                    let ghost ig = info;
                    m.insert(isin.clone(), info);
                    proof {
                        lemma_store_map_values(before, info_view_fn(), isin@, ig);
                    }
                }
            }
        }
        i = i + 1;
    }
    assert(bonds@.take(n as int) =~= bonds@);
    m
}

/// The issue volumes of the bonds that state one.
pub open spec fn issue_volumes_spec(infos: Seq<(Seq<char>, BondPersistentInfo)>) -> Seq<(Seq<char>, i64)>
    decreases infos.len(),
{
    if infos.len() == 0 {
        Seq::empty()
    } else {
        let rest = issue_volumes_spec(infos.drop_last());
        match infos.last().1.bond_info.issue_volume {
            Some(v) => store(rest, infos.last().0, v),
            None => rest,
        }
    }
}

/// A value or a default (`Option::unwrap_or`).
pub open spec fn or_else(o: Option<Dec>, d: Dec) -> Dec {
    match o {
        Some(v) => v,
        None => d,
    }
}

/// The candle cached for a row: missing prices, volume and interest count as
/// zero, a missing face value as 100.
pub open spec fn candle_entry(c: CandleRecord) -> PriceEntry {
    PriceEntry {
        open: or_else(c.open, spec_from_i64(0)),
        close: or_else(c.close, spec_from_i64(0)),
        low: or_else(c.low, spec_from_i64(0)),
        high: or_else(c.high, spec_from_i64(0)),
        volume: or_else(c.volume, spec_from_i64(0)),
        facevalue: or_else(c.facevalue, spec_from_i64(100)),
        accint: or_else(c.accint, spec_from_i64(0)),
    }
}

/// The caches of the simulator as values of the model.
pub struct CacheView {
    pub prices: Seq<((Date, Seq<char>), PriceEntry)>,
    pub latest: Seq<(Seq<char>, PriceEntry)>,
    pub facevalues: Seq<(Seq<char>, Dec)>,
}

/// The caches after caching the candles of `date` of known bonds, in order.
pub open spec fn cache_fold(c: CacheView, candles: Seq<CandleRecord>, isins: Seq<(i64, Seq<char>)>, date: Date) -> CacheView
    decreases candles.len(),
{
    if candles.len() == 0 {
        c
    } else {
        let rest = cache_fold(c, candles.drop_last(), isins, date);
        let cd = candles.last();
        match lookup(isins, cd.bond_id) {
            Some(isin) => if cd.date == date {
                let e = candle_entry(cd);
                CacheView {
                    prices: store(rest.prices, (date, isin), e),
                    latest: store(rest.latest, isin, e),
                    facevalues: if lookup(rest.facevalues, isin) is Some {
                        rest.facevalues
                    } else {
                        store(rest.facevalues, isin, e.facevalue)
                    },
                }
            } else {
                rest
            },
            None => rest,
        }
    }
}

/// The caches of a simulator.
pub open spec fn cache_view(s: MarketSimulator) -> CacheView {
    CacheView { prices: s.price_cache@, latest: s.last_known_price@, facevalues: s.facevalues@ }
}

/// A snapshot as a value of the model.
pub struct SnapshotView {
    pub date: Date,
    pub cash: Dec,
    pub positions: Seq<(Seq<char>, i64)>,
    pub portfolio_value: Dec,
    pub total_value: Dec,
}

/// The model of a snapshot.
pub open spec fn snapshot_view(s: PortfolioSnapshot) -> SnapshotView {
    SnapshotView {
        date: s.date,
        cash: s.cash,
        positions: s.positions@,
        portfolio_value: s.portfolio_value,
        total_value: s.total_value,
    }
}

/// The model of a list of snapshots.
pub open spec fn snapshots_view(s: Seq<PortfolioSnapshot>) -> Seq<SnapshotView> {
    Seq::new(s.len(), |i: int| snapshot_view(s[i]))
}

/// What changes from day to day in a backtest: the day, the account, the
/// candles, the bonds in default, and the trades, payments and snapshots
/// recorded so far.
pub struct DayState {
    pub date: Date,
    pub account: AccountView,
    pub cache: CacheView,
    pub defaulted: Seq<(Seq<char>, bool)>,
    pub trades: Seq<TradeView>,
    pub payments: Seq<PaymentView>,
    pub snapshots: Seq<SnapshotView>,
}

/// The state of a backtest as a value of the model.
pub open spec fn day_state(b: Backtest) -> DayState {
    DayState {
        date: b.simulator.current_date,
        account: account_view(b.simulator),
        cache: cache_view(b.simulator),
        defaulted: b.defaulted@,
        trades: trades_view(b.simulator.trades@),
        payments: payments_view(b.simulator.payments@),
        snapshots: snapshots_view(b.snapshots@),
    }
}

/// Starting the day `date`: its candles are cached, then the day's defaults
/// are written off, its offers redeemed and its payments credited, in that
/// order.
pub open spec fn begin_day_spec(
    st: DayState,
    date: Date,
    candles: Seq<CandleRecord>,
    infos: Seq<(Seq<char>, BondPersistentInfo)>,
    names: Seq<(i64, Seq<char>)>,
    flat: Seq<IsinPaymentView>,
) -> DayState {
    let c = cache_fold(st.cache, candles, names, date);
    let d = defaults_of_day(infos, c.prices, date, st.account.holdings, st.defaulted);
    let a0 = AccountView { free: st.account.free, holdings: d.holdings };
    let a = offers_fold(infos, date, a0, c.facevalues);
    DayState {
        date,
        account: AccountView {
            free: payments_fold(flat, date, d.defaulted, a.holdings, c.facevalues, a.free),
            holdings: a.holdings,
        },
        cache: c,
        defaulted: d.defaulted,
        trades: st.trades,
        payments: st.payments + d.events + offer_events(infos, date, a0, c.facevalues) + payment_events(
            flat,
            date,
            d.defaulted,
            a.holdings,
            c.facevalues,
            a.free,
        ),
        snapshots: st.snapshots,
    }
}

/// The prices handed to the strategy in a state.
pub open spec fn day_prices(st: DayState, infos: Seq<(Seq<char>, BondPersistentInfo)>) -> Seq<(Seq<char>, Dec)> {
    prices_spec(infos, st.defaulted, st.cache.prices, st.cache.latest, st.date)
}

/// The volumes handed to the strategy in a state.
pub open spec fn day_volumes(st: DayState, infos: Seq<(Seq<char>, BondPersistentInfo)>) -> Seq<(Seq<char>, i64)> {
    volumes_spec(infos, st.defaulted, st.cache.prices, st.cache.latest, st.date)
}

/// Finishing a day: the orders are executed in turn, the state of the
/// account is recorded when its value can be computed, and the day's
/// candles are forgotten.
pub open spec fn finish_day_spec(st: DayState, orders: Seq<OrderView>, issue_volumes: Seq<(Seq<char>, i64)>) -> DayState {
    let f = orders_fold(orders, st.cache.prices, st.date, issue_volumes, st.account);
    let total = account_value(f.account.free, f.account.holdings, st.cache.prices, st.cache.latest, st.date);
    let value = if total is Some {
        decimal_checked_sub(total->0, f.account.free)
    } else {
        None
    };
    DayState {
        date: st.date,
        account: f.account,
        cache: CacheView { prices: without_day(st.cache.prices, st.date), latest: st.cache.latest, facevalues: st.cache.facevalues },
        defaulted: st.defaulted,
        trades: st.trades + f.trades,
        payments: st.payments,
        snapshots: if value is Some {
            st.snapshots.push(
                SnapshotView {
                    date: st.date,
                    cash: f.account.free,
                    positions: f.account.holdings,
                    portfolio_value: value->0,
                    total_value: total->0,
                },
            )
        } else {
            st.snapshots
        },
    }
}

/// The candles of each day as values of the model.
pub open spec fn days_view(days: Seq<Vec<CandleRecord>>) -> Seq<Seq<CandleRecord>> {
    Seq::new(days.len(), |i: int| days[i]@)
}

/// Running the days from `start` (day `k` with the candles `days[k]` and the
/// yields `yields[k]`): each day begins, the strategy decides on the
/// portfolio, prices, volumes and yields of the day, and the day finishes
/// with its orders.  The run stops on the first day the strategy decides
/// nothing (`false`), right after that day began.
pub open spec fn run_spec<S: Strategy>(
    strategy: S,
    st: DayState,
    start: Date,
    days: Seq<Seq<CandleRecord>>,
    yields: Seq<Seq<(Seq<char>, Dec)>>,
    infos: Seq<(Seq<char>, BondPersistentInfo)>,
    names: Seq<(i64, Seq<char>)>,
    flat: Seq<IsinPaymentView>,
    issue_volumes: Seq<(Seq<char>, i64)>,
) -> (DayState, bool)
    decreases days.len(),
{
    if days.len() == 0 {
        (st, true)
    } else {
        let prev = run_spec(strategy, st, start, days.drop_last(), yields, infos, names, flat, issue_volumes);
        if !prev.1 {
            prev
        } else {
            let k = days.len() - 1;
            let date = (start + k) as Date;
            let b = begin_day_spec(prev.0, date, days[k], infos, names, flat);
            let portfolio = PortfolioView { free_money: b.account.free, bonds_count: b.account.holdings };
            match strategy.decision(date, portfolio, infos, day_prices(b, infos), day_volumes(b, infos), yields[k]) {
                None => (b, false),
                Some(orders) => (finish_day_spec(b, orders, issue_volumes), true),
            }
        }
    }
}

/// A run depends only on the yields of its own days.
proof fn lemma_run_yields<S: Strategy>(
    strategy: S,
    st: DayState,
    start: Date,
    days: Seq<Seq<CandleRecord>>,
    ys1: Seq<Seq<(Seq<char>, Dec)>>,
    ys2: Seq<Seq<(Seq<char>, Dec)>>,
    infos: Seq<(Seq<char>, BondPersistentInfo)>,
    names: Seq<(i64, Seq<char>)>,
    flat: Seq<IsinPaymentView>,
    issue_volumes: Seq<(Seq<char>, i64)>,
)
    requires
        forall|k: int| 0 <= k < days.len() ==> ys1[k] == ys2[k],
    ensures
        run_spec(strategy, st, start, days, ys1, infos, names, flat, issue_volumes)
            == run_spec(strategy, st, start, days, ys2, infos, names, flat, issue_volumes),
    decreases days.len(),
{
    if days.len() > 0 {
        lemma_run_yields(strategy, st, start, days.drop_last(), ys1, ys2, infos, names, flat, issue_volumes);
        assert(ys1[days.len() - 1] == ys2[days.len() - 1]);
    }
}

/// A run that stopped stays stopped over further days.
proof fn lemma_run_stops<S: Strategy>(
    strategy: S,
    st: DayState,
    start: Date,
    days: Seq<Seq<CandleRecord>>,
    ys: Seq<Seq<(Seq<char>, Dec)>>,
    infos: Seq<(Seq<char>, BondPersistentInfo)>,
    names: Seq<(i64, Seq<char>)>,
    flat: Seq<IsinPaymentView>,
    issue_volumes: Seq<(Seq<char>, i64)>,
    k: int,
)
    requires
        0 <= k <= days.len(),
        !run_spec(strategy, st, start, days.take(k), ys, infos, names, flat, issue_volumes).1,
    ensures
        run_spec(strategy, st, start, days, ys, infos, names, flat, issue_volumes)
            == run_spec(strategy, st, start, days.take(k), ys, infos, names, flat, issue_volumes),
    decreases days.len() - k,
{
    if k < days.len() {
        assert(days.take(k + 1).drop_last() =~= days.take(k));
        lemma_run_stops(strategy, st, start, days, ys, infos, names, flat, issue_volumes, k + 1);
    } else {
        assert(days.take(k) =~= days);
    }
}

/// Snapshots dated in strictly increasing order within `n` days from
/// `start`, `n` of them, fall one on each day.
proof fn lemma_one_per_day(s: Seq<PortfolioSnapshot>, s0: int, start: int, n: int)
    requires
        0 <= s0,
        0 <= n,
        s.len() == s0 + n,
        forall|k: int| s0 <= k < s.len() ==> start <= #[trigger] s[k].date < start + n,
        forall|k: int, l: int| s0 <= k < l < s.len() ==> #[trigger] s[k].date < #[trigger] s[l].date,
    ensures
        forall|i: int| 0 <= i < n ==> #[trigger] s[s0 + i].date == start + i,
{
    assert forall|i: int| 0 <= i < n implies #[trigger] s[s0 + i].date == start + i by {
        lemma_dates_below(s, s0, start, n, i);
        lemma_dates_above(s, s0, start, n, i);
    }
}

proof fn lemma_dates_below(s: Seq<PortfolioSnapshot>, s0: int, start: int, n: int, i: int)
    requires
        0 <= s0,
        0 <= i < n,
        s.len() == s0 + n,
        forall|k: int| s0 <= k < s.len() ==> start <= #[trigger] s[k].date < start + n,
        forall|k: int, l: int| s0 <= k < l < s.len() ==> #[trigger] s[k].date < #[trigger] s[l].date,
    ensures
        s[s0 + i].date >= start + i,
    decreases i,
{
    if i > 0 {
        lemma_dates_below(s, s0, start, n, i - 1);
        assert(s[s0 + i - 1].date < s[s0 + i].date);
    } else {
        assert(start <= s[s0 + i].date);
    }
}

proof fn lemma_dates_above(s: Seq<PortfolioSnapshot>, s0: int, start: int, n: int, i: int)
    requires
        0 <= s0,
        0 <= i < n,
        s.len() == s0 + n,
        forall|k: int| s0 <= k < s.len() ==> start <= #[trigger] s[k].date < start + n,
        forall|k: int, l: int| s0 <= k < l < s.len() ==> #[trigger] s[k].date < #[trigger] s[l].date,
    ensures
        s[s0 + i].date <= start + i,
    decreases n - i,
{
    if i < n - 1 {
        lemma_dates_above(s, s0, start, n, i + 1);
        assert(s[s0 + i].date < s[s0 + i + 1].date);
    } else {
        assert(s[s0 + i].date < start + n);
    }
}

/// How the caller of a backtest values a bond for the strategy: the yield
/// (an internal rate of return) of buying it at a price, which this library
/// does not compute.
pub trait BondYields {
    /// The yield of buying the bond at `price` on `today`.
    fn bond_yield(&self, price: Dec, today: Date, info: &BondPersistentInfo) -> Dec;
}

/// The prices and volumes handed to the strategy on a day.
pub struct MarketDay {
    pub prices: IsinMap<Dec>,
    pub volumes: IsinMap<i64>,
}

/// A backtest in progress: the simulator, the bonds it trades, their
/// payments, and the bonds found in default so far.
pub struct Backtest {
    pub simulator: MarketSimulator,
    /// The tradable bonds by ISIN.
    pub bonds_info: IsinMap<BondPersistentInfo>,
    /// The ISIN of each bond id.
    pub bond_isins: KeyedMap<i64, String>,
    /// The payments of known bonds.
    pub payments: Vec<IsinPayment>,
    /// The bonds in default (the keys).
    pub defaulted: IsinMap<bool>,
    /// The state of the account at the end of each day.
    pub snapshots: Vec<PortfolioSnapshot>,
    pub initial_capital: Dec,
    pub start_date: Date,
}

impl Backtest {
    /// A backtest with only cash, on `start_date`; buys are limited by the
    /// issue volumes of the bonds.
    pub fn new(
        initial_capital: Dec,
        start_date: Date,
        bonds_info: IsinMap<BondPersistentInfo>,
        bond_isins: KeyedMap<i64, String>,
        payments: Vec<IsinPayment>,
    ) -> (r: Self)
        ensures
            r.simulator.wf(),
            r.simulator.current_date == start_date,
            r.simulator.portfolio.free_money == initial_capital,
            r.simulator.holdings@.len() == 0,
            r.simulator.trades@.len() == 0,
            r.simulator.payments@.len() == 0,
            r.simulator.price_cache@.len() == 0,
            r.simulator.facevalues@.len() == 0,
            r.simulator.last_known_price@.len() == 0,
            r.simulator.issue_volumes@ == issue_volumes_spec(bonds_info@),
            r.bonds_info == bonds_info,
            r.bond_isins == bond_isins,
            r.payments == payments,
            r.defaulted@.len() == 0,
            r.snapshots@.len() == 0,
            r.initial_capital == initial_capital,
            r.start_date == start_date,
    {
        let mut simulator = MarketSimulator::new(initial_capital, start_date);
        let n = bonds_info.len();
        let mut i: usize = 0;
        while i < n
            invariant
                n == bonds_info@.len(),
                i <= n,
                simulator.wf(),
                simulator.current_date == start_date,
                simulator.portfolio.free_money == initial_capital,
                simulator.holdings@.len() == 0,
                simulator.trades@.len() == 0,
                simulator.payments@.len() == 0,
                simulator.price_cache@.len() == 0,
                simulator.facevalues@.len() == 0,
                simulator.last_known_price@.len() == 0,
                simulator.issue_volumes@ == issue_volumes_spec(bonds_info@.take(i as int)),
            decreases n - i,
        {
            assert(bonds_info@.take(i + 1).drop_last() =~= bonds_info@.take(i as int));
            let info = bonds_info.value_ref(i);
            if let Some(vol) = info.bond_info.issue_volume {
                simulator.issue_volumes.insert(bonds_info.key_at(i).clone(), vol);
            }
            i = i + 1;
        }
        assert(bonds_info@.take(n as int) =~= bonds_info@);
        Backtest {
            simulator,
            bonds_info,
            bond_isins,
            payments,
            defaulted: KeyedMap::new(),
            snapshots: Vec::new(),
            initial_capital,
            start_date,
        }
    }

    /// Starts the day `date`: moves the simulator to it and caches the
    /// day's candles of known bonds.
    pub fn cache_day(&mut self, date: Date, candles: &Vec<CandleRecord>)
        requires
            old(self).simulator.wf(),
        ensures
            final(self).simulator.wf(),
            final(self).simulator.current_date == date,
            cache_view(final(self).simulator) == cache_fold(
                cache_view(old(self).simulator),
                candles@,
                entries_view_str(old(self).bond_isins@),
                date,
            ),
            final(self).simulator.portfolio == old(self).simulator.portfolio,
            final(self).simulator.holdings == old(self).simulator.holdings,
            final(self).simulator.trades == old(self).simulator.trades,
            final(self).simulator.payments == old(self).simulator.payments,
            final(self).simulator.issue_volumes == old(self).simulator.issue_volumes,
            final(self).bonds_info == old(self).bonds_info,
            final(self).bond_isins == old(self).bond_isins,
            final(self).payments == old(self).payments,
            final(self).defaulted == old(self).defaulted,
            final(self).snapshots == old(self).snapshots,
            final(self).initial_capital == old(self).initial_capital,
            final(self).start_date == old(self).start_date,
    {
        self.simulator.set_date(date);
        let ghost iv = entries_view_str(self.bond_isins@);
        let ghost c0 = cache_view(self.simulator);
        let zero_d = from_i64(0);
        let hundred = from_i64(100);
        proof {
            lemma_from_i64_is_spec(zero_d, 0);
            lemma_from_i64_is_spec(hundred, 100);
        }
        let n = candles.len();
        let mut i: usize = 0;
        while i < n
            invariant
                n == candles@.len(),
                i <= n,
                iv == entries_view_str(self.bond_isins@),
                zero_d == spec_from_i64(0),
                hundred == spec_from_i64(100),
                self.simulator.wf(),
                self.simulator.current_date == date,
                cache_view(self.simulator) == cache_fold(c0, candles@.take(i as int), iv, date),
                self.simulator.portfolio == old(self).simulator.portfolio,
                self.simulator.holdings == old(self).simulator.holdings,
                self.simulator.trades == old(self).simulator.trades,
                self.simulator.payments == old(self).simulator.payments,
                self.simulator.issue_volumes == old(self).simulator.issue_volumes,
                self.bonds_info == old(self).bonds_info,
                self.bond_isins == old(self).bond_isins,
                self.payments == old(self).payments,
                self.defaulted == old(self).defaulted,
                self.snapshots == old(self).snapshots,
                self.initial_capital == old(self).initial_capital,
                self.start_date == old(self).start_date,
            decreases n - i,
        {
            assert(candles@.take(i + 1).drop_last() =~= candles@.take(i as int));
            assert(candles@.take(i + 1).last() == candles@[i as int]);
            let cd = candles[i];
            if let Some(isin) = isin_of(&self.bond_isins, cd.bond_id) {
                if cd.date == date {
                    let open = match cd.open { Some(v) => v, None => zero_d };
                    let close = match cd.close { Some(v) => v, None => zero_d };
                    let low = match cd.low { Some(v) => v, None => zero_d };
                    let high = match cd.high { Some(v) => v, None => zero_d };
                    let volume = match cd.volume { Some(v) => v, None => zero_d };
                    let facevalue = match cd.facevalue { Some(v) => v, None => hundred };
                    let accint = match cd.accint { Some(v) => v, None => zero_d };
                    self.simulator.cache_prices(isin, open, close, low, high, volume, facevalue, accint);
                }
            }
            i = i + 1;
        }
        assert(candles@.take(n as int) =~= candles@);
    }
}

/// Whether one of the first `i` bonds is `k` with a default on `date`.
pub open spec fn db_default_upto(infos: Seq<(Seq<char>, BondPersistentInfo)>, k: Seq<char>, date: Date, i: int) -> bool
    decreases i,
{
    if i <= 0 {
        false
    } else {
        db_default_upto(infos, k, date, i - 1) || (infos[i - 1].0 == k && infos[i - 1].1.bond_info.default_date
            == Some(date))
    }
}

/// Whether bond `k` has a default recorded on `date`.
pub open spec fn db_default(infos: Seq<(Seq<char>, BondPersistentInfo)>, k: Seq<char>, date: Date) -> bool {
    db_default_upto(infos, k, date, infos.len() as int)
}

/// A candle whose middle price is above 0% and below 20% of the face value
/// shows a default.
pub open spec fn in_default_range(e: PriceEntry) -> bool {
    match decimal_checked_add(e.low, e.high) {
        None => false,
        Some(sum) => match decimal_checked_div(sum, spec_from_i64(2)) {
            None => false,
            Some(mid) => 0 < mid.val() && mid.val() < 20 * pow10(28),
        },
    }
}

/// Whether one of the first `j` cached candles is one of `k` on `date` that
/// shows a default.
pub open spec fn price_default_upto(pc: Seq<((Date, Seq<char>), PriceEntry)>, k: Seq<char>, date: Date, j: int) -> bool
    decreases j,
{
    if j <= 0 {
        false
    } else {
        price_default_upto(pc, k, date, j - 1) || (pc[j - 1].0 == (date, k) && in_default_range(pc[j - 1].1))
    }
}

/// Whether the cached candle of `k` on `date` shows a default.
pub open spec fn price_default(pc: Seq<((Date, Seq<char>), PriceEntry)>, k: Seq<char>, date: Date) -> bool {
    price_default_upto(pc, k, date, pc.len() as int)
}

/// A bond has a default recorded on a day exactly when one of its entries
/// gives that day as its default date; its candle shows a default on a day
/// exactly when a cached candle of it for that day has its middle price in the
/// default range.
pub proof fn law_default_days(
    infos: Seq<(Seq<char>, BondPersistentInfo)>,
    pc: Seq<((Date, Seq<char>), PriceEntry)>,
    k: Seq<char>,
    date: Date,
)
    ensures
        db_default(infos, k, date) <==> exists|j: int| 0 <= j < infos.len() && #[trigger] infos[j].0 == k
            && infos[j].1.bond_info.default_date == Some(date),
        price_default(pc, k, date) <==> exists|j: int| 0 <= j < pc.len() && #[trigger] pc[j].0 == (date, k)
            && in_default_range(pc[j].1),
{
    lemma_db_default_upto(infos, k, date, infos.len() as int);
    lemma_price_default_upto(pc, k, date, pc.len() as int);
}

proof fn lemma_db_default_upto(infos: Seq<(Seq<char>, BondPersistentInfo)>, k: Seq<char>, date: Date, i: int)
    requires
        0 <= i <= infos.len(),
    ensures
        db_default_upto(infos, k, date, i) <==> exists|j: int| 0 <= j < i && #[trigger] infos[j].0 == k
            && infos[j].1.bond_info.default_date == Some(date),
    decreases i,
{
    if i > 0 {
        lemma_db_default_upto(infos, k, date, i - 1);
        if db_default_upto(infos, k, date, i) {
            if !db_default_upto(infos, k, date, i - 1) {
                assert(infos[i - 1].0 == k);
            }
        }
    }
}

proof fn lemma_price_default_upto(pc: Seq<((Date, Seq<char>), PriceEntry)>, k: Seq<char>, date: Date, j: int)
    requires
        0 <= j <= pc.len(),
    ensures
        price_default_upto(pc, k, date, j) <==> exists|m: int| 0 <= m < j && #[trigger] pc[m].0 == (date, k)
            && in_default_range(pc[m].1),
    decreases j,
{
    if j > 0 {
        lemma_price_default_upto(pc, k, date, j - 1);
        if price_default_upto(pc, k, date, j) {
            if !price_default_upto(pc, k, date, j - 1) {
                assert(pc[j - 1].0 == (date, k));
            }
        }
    }
}

/// The holdings after writing off the bonds for which `newly` holds: a held
/// bond drops to zero, others stay as they were.
pub open spec fn written_off(h0: Seq<(Seq<char>, i64)>, k: Seq<char>, newly: bool) -> Option<i64> {
    if newly && lookup(h0, k) is Some {
        Some(0i64)
    } else {
        lookup(h0, k)
    }
}

/// The record of writing off `quantity` bonds on `date`.
pub open spec fn write_off_view(date: Date, isin: Seq<char>, quantity: i64) -> PaymentView {
    PaymentView {
        date,
        isin,
        quantity,
        amount_per_unit: spec_from_i64(0),
        total_amount: spec_from_i64(0),
        payment_type: "default_write_off"@,
    }
}

/// The write-off record of a bond, when some of it is held.
pub open spec fn write_off_events(holdings: Seq<(Seq<char>, i64)>, isin: Seq<char>, date: Date) -> Seq<PaymentView> {
    match lookup(holdings, isin) {
        Some(q) => if q != 0 {
            seq![write_off_view(date, isin, q)]
        } else {
            Seq::empty()
        },
        None => Seq::empty(),
    }
}

/// The holdings after writing a bond off: its position becomes zero when
/// some of it is held.
pub open spec fn written_off_holdings(holdings: Seq<(Seq<char>, i64)>, isin: Seq<char>) -> Seq<(Seq<char>, i64)> {
    match lookup(holdings, isin) {
        Some(q) => if q != 0 {
            store(holdings, isin, 0)
        } else {
            holdings
        },
        None => holdings,
    }
}

/// The bonds in default, the holdings and the write-offs recorded so far.
pub struct DefaultsView {
    pub defaulted: Seq<(Seq<char>, bool)>,
    pub holdings: Seq<(Seq<char>, i64)>,
    pub events: Seq<PaymentView>,
}

/// Declaring a bond defaulted: a bond already in default is left alone;
/// otherwise it is marked, and what is held of it is written off.
pub open spec fn default_step(d: DefaultsView, isin: Seq<char>, date: Date) -> DefaultsView {
    if has_key(d.defaulted, isin) {
        d
    } else {
        DefaultsView {
            defaulted: store(d.defaulted, isin, true),
            holdings: written_off_holdings(d.holdings, isin),
            events: d.events + write_off_events(d.holdings, isin, date),
        }
    }
}

/// The defaults recorded for `date`, in the order of the bonds.
pub open spec fn db_defaults_fold(
    infos: Seq<(Seq<char>, BondPersistentInfo)>,
    date: Date,
    d: DefaultsView,
) -> DefaultsView
    decreases infos.len(),
{
    if infos.len() == 0 {
        d
    } else {
        let r = db_defaults_fold(infos.drop_last(), date, d);
        if infos.last().1.bond_info.default_date == Some(date) {
            default_step(r, infos.last().0, date)
        } else {
            r
        }
    }
}

/// The defaults shown by the candles of `date`, in the order of the candles.
pub open spec fn price_defaults_fold(
    pc: Seq<((Date, Seq<char>), PriceEntry)>,
    date: Date,
    d: DefaultsView,
) -> DefaultsView
    decreases pc.len(),
{
    if pc.len() == 0 {
        d
    } else {
        let r = price_defaults_fold(pc.drop_last(), date, d);
        let e = pc.last();
        if e.0.0 == date && in_default_range(e.1) {
            default_step(r, e.0.1, date)
        } else {
            r
        }
    }
}

/// The day's defaults: first those recorded for the day, then those shown
/// by the day's candles.
pub open spec fn defaults_of_day(
    infos: Seq<(Seq<char>, BondPersistentInfo)>,
    pc: Seq<((Date, Seq<char>), PriceEntry)>,
    date: Date,
    holdings: Seq<(Seq<char>, i64)>,
    defaulted: Seq<(Seq<char>, bool)>,
) -> DefaultsView {
    price_defaults_fold(pc, date, db_defaults_fold(infos, date, DefaultsView { defaulted, holdings, events: Seq::empty() }))
}

/// A bond of holdings that hold nothing has no position to lose or credit.
proof fn lemma_nothing_held(holdings: Seq<(Seq<char>, i64)>, isin: Seq<char>)
    requires
        holds_nothing(holdings),
    ensures
        lookup(holdings, isin) is None || lookup(holdings, isin) == Some(0i64),
{
    if has_key(holdings, isin) {
        let i = key_index(holdings, isin);
        assert(0 <= i < holdings.len());
        assert(holdings[i].1 == 0);
    }
}

/// Defaults on holdings that hold nothing write nothing off.
proof fn lemma_idle_db_defaults(infos: Seq<(Seq<char>, BondPersistentInfo)>, date: Date, d: DefaultsView)
    requires
        holds_nothing(d.holdings),
    ensures
        db_defaults_fold(infos, date, d).holdings == d.holdings,
        db_defaults_fold(infos, date, d).events == d.events,
    decreases infos.len(),
{
    if infos.len() > 0 {
        lemma_idle_db_defaults(infos.drop_last(), date, d);
        let r = db_defaults_fold(infos.drop_last(), date, d);
        lemma_nothing_held(r.holdings, infos.last().0);
        assert(r.events + write_off_events(r.holdings, infos.last().0, date) =~= r.events);
    }
}

/// Defaults shown by candles on holdings that hold nothing write nothing off.
proof fn lemma_idle_price_defaults(pc: Seq<((Date, Seq<char>), PriceEntry)>, date: Date, d: DefaultsView)
    requires
        holds_nothing(d.holdings),
    ensures
        price_defaults_fold(pc, date, d).holdings == d.holdings,
        price_defaults_fold(pc, date, d).events == d.events,
    decreases pc.len(),
{
    if pc.len() > 0 {
        lemma_idle_price_defaults(pc.drop_last(), date, d);
        let r = price_defaults_fold(pc.drop_last(), date, d);
        lemma_nothing_held(r.holdings, pc.last().0.1);
        assert(r.events + write_off_events(r.holdings, pc.last().0.1, date) =~= r.events);
    }
}

/// Whether the middle price of a candle shows a default: where the middle
/// is computed without rounding, exactly when `low + high` lies strictly
/// between 0 and 40 (a middle between 0% and 20% of the face value).
fn shows_default(e: PriceEntry) -> (r: bool)
    ensures
        r == in_default_range(e),
        sum_is_exact(e.low, e.high, 1)
            && (exists|k: nat| #[trigger] quotient_fits_at(decimal_checked_add(e.low, e.high)->0, spec_from_i64(2), k))
            ==> r == (0 < e.low.val() + e.high.val() && e.low.val() + e.high.val() < 40 * pow10(28)),
{
    match checked_add(e.low, e.high) {
        None => false,
        Some(sum) => {
            let two = from_i64(2);
            proof {
                lemma_from_i64_is_spec(two, 2);
                lemma_pow10_positive(28);
                if sum_is_exact(e.low, e.high, 1)
                    && (exists|k: nat| #[trigger] quotient_fits_at(sum, spec_from_i64(2), k)) {
                    let k = choose|k: nat| #[trigger] quotient_fits_at(sum, spec_from_i64(2), k);
                    assert(quotient_fits_at(sum, two, k));
                }
            }
            let half = checked_div(sum, two);
            proof {
                if sum_is_exact(e.low, e.high, 1)
                    && (exists|k: nat| #[trigger] quotient_fits_at(sum, spec_from_i64(2), k)) {
                    let z = half->0.val();
                    let big = pow10(28);
                    assert(z * (2 * big) == sum.val() * big);
                    assert(z * 2 == sum.val()) by (nonlinear_arith)
                        requires
                            z * (2 * big) == sum.val() * big,
                            big > 0,
                    ;
                }
            }
            match half {
                None => false,
                Some(mid) => {
                    let twenty = from_i64(20);
                    is_positive(mid) && lt(mid, twenty)
                },
            }
        },
    }
}

impl Backtest {
    /// Marks a bond defaulted and writes it off.
    fn default_bond(&mut self, isin: &String)
        requires
            old(self).simulator.wf(),
        ensures
            final(self).simulator.wf(),
            final(self).defaulted@ == store(old(self).defaulted@, isin@, true),
            forall|k: Seq<char>| #[trigger] lookup(final(self).simulator.holdings@, k) == written_off(
                old(self).simulator.holdings@,
                k,
                k == isin@,
            ),
            final(self).simulator.portfolio.free_money == old(self).simulator.portfolio.free_money,
            payments_view(final(self).simulator.payments@) == payments_view(old(self).simulator.payments@)
                + write_off_events(old(self).simulator.holdings@, isin@, old(self).simulator.current_date),
            final(self).simulator.holdings@ == written_off_holdings(old(self).simulator.holdings@, isin@),
            final(self).simulator.current_date == old(self).simulator.current_date,
            final(self).simulator.trades == old(self).simulator.trades,
            final(self).simulator.price_cache == old(self).simulator.price_cache,
            final(self).simulator.facevalues == old(self).simulator.facevalues,
            final(self).simulator.issue_volumes == old(self).simulator.issue_volumes,
            final(self).simulator.last_known_price == old(self).simulator.last_known_price,
            final(self).bonds_info == old(self).bonds_info,
            final(self).bond_isins == old(self).bond_isins,
            final(self).payments == old(self).payments,
            final(self).snapshots == old(self).snapshots,
            final(self).initial_capital == old(self).initial_capital,
            final(self).start_date == old(self).start_date,
    {
        let ghost h0 = self.simulator.holdings@;
        let ghost p0 = self.simulator.payments@;
        // the holdings' keys are distinct
        let _ = self.simulator.holdings.len();
        self.defaulted.insert(isin.clone(), true);
        let r = self.simulator.write_off_bond(isin);
        proof {
            match r {
                Some(ev) => {
                    assert(payments_view(self.simulator.payments@) =~= payments_view(p0) + seq![payment_view(ev)]);
                },
                None => {
                    assert(payments_view(self.simulator.payments@) =~= payments_view(p0) + Seq::<PaymentView>::empty());
                },
            }
            crate::keyed_map::lemma_store(h0, isin@, 0i64);
            assert forall|k: Seq<char>| #[trigger] lookup(self.simulator.holdings@, k) == written_off(h0, k, k == isin@) by {
                if r is None {
                    if k == isin@ && lookup(h0, k) is Some {
                        assert(lookup(h0, k)->0 == 0);
                    }
                }
            }
        }
    }

    /// Writes off the bonds that default today: those with a default
    /// recorded for today, then those whose candle today has a middle price
    /// between 0% and 20% of the face value.  A bond is written off once;
    /// no cash is credited.
    pub fn apply_defaults(&mut self)
        requires
            old(self).simulator.wf(),
        ensures
            final(self).simulator.wf(),
            forall|k: Seq<char>| #[trigger] has_key(final(self).defaulted@, k) <==> (has_key(old(self).defaulted@, k)
                || db_default(old(self).bonds_info@, k, old(self).simulator.current_date)
                || price_default(old(self).simulator.price_cache@, k, old(self).simulator.current_date)),
            forall|k: Seq<char>| #[trigger] lookup(final(self).simulator.holdings@, k) == written_off(
                old(self).simulator.holdings@,
                k,
                !has_key(old(self).defaulted@, k) && (db_default(old(self).bonds_info@, k, old(self).simulator.current_date)
                    || price_default(old(self).simulator.price_cache@, k, old(self).simulator.current_date)),
            ),
            final(self).defaulted@ == defaults_of_day(
                old(self).bonds_info@,
                old(self).simulator.price_cache@,
                old(self).simulator.current_date,
                old(self).simulator.holdings@,
                old(self).defaulted@,
            ).defaulted,
            payments_view(final(self).simulator.payments@) == payments_view(old(self).simulator.payments@) + defaults_of_day(
                old(self).bonds_info@,
                old(self).simulator.price_cache@,
                old(self).simulator.current_date,
                old(self).simulator.holdings@,
                old(self).defaulted@,
            ).events,
            final(self).simulator.holdings@ == defaults_of_day(
                old(self).bonds_info@,
                old(self).simulator.price_cache@,
                old(self).simulator.current_date,
                old(self).simulator.holdings@,
                old(self).defaulted@,
            ).holdings,
            final(self).simulator.portfolio.free_money == old(self).simulator.portfolio.free_money,
            final(self).simulator.current_date == old(self).simulator.current_date,
            final(self).simulator.trades == old(self).simulator.trades,
            final(self).simulator.price_cache == old(self).simulator.price_cache,
            final(self).simulator.facevalues == old(self).simulator.facevalues,
            final(self).simulator.issue_volumes == old(self).simulator.issue_volumes,
            final(self).simulator.last_known_price == old(self).simulator.last_known_price,
            final(self).bonds_info == old(self).bonds_info,
            final(self).bond_isins == old(self).bond_isins,
            final(self).payments == old(self).payments,
            final(self).snapshots == old(self).snapshots,
            final(self).initial_capital == old(self).initial_capital,
            final(self).start_date == old(self).start_date,
    {
        let date = self.simulator.current_date;
        let ghost def0 = self.defaulted@;
        let ghost h0 = self.simulator.holdings@;
        let ghost infos = self.bonds_info@;
        let ghost pc = self.simulator.price_cache@;
        let ghost p0 = self.simulator.payments@;
        let ghost d0 = DefaultsView { defaulted: def0, holdings: h0, events: Seq::empty() };
        let n = self.bonds_info.len();
        let mut i: usize = 0;
        while i < n
            invariant
                n == infos.len(),
                infos == self.bonds_info@,
                pc == self.simulator.price_cache@,
                i <= n,
                date == self.simulator.current_date,
                self.simulator.wf(),
                forall|k: Seq<char>| #[trigger] has_key(self.defaulted@, k) <==> (has_key(def0, k)
                    || db_default_upto(infos, k, date, i as int)),
                forall|k: Seq<char>| #[trigger] lookup(self.simulator.holdings@, k) == written_off(
                    h0,
                    k,
                    !has_key(def0, k) && db_default_upto(infos, k, date, i as int),
                ),
                self.defaulted@ == db_defaults_fold(infos.take(i as int), date, d0).defaulted,
                self.simulator.holdings@ == db_defaults_fold(infos.take(i as int), date, d0).holdings,
                payments_view(self.simulator.payments@) == payments_view(p0)
                    + db_defaults_fold(infos.take(i as int), date, d0).events,
                self.simulator.portfolio.free_money == old(self).simulator.portfolio.free_money,
                self.simulator.current_date == old(self).simulator.current_date,
                self.simulator.trades == old(self).simulator.trades,
                self.simulator.price_cache == old(self).simulator.price_cache,
                self.simulator.facevalues == old(self).simulator.facevalues,
                self.simulator.issue_volumes == old(self).simulator.issue_volumes,
                self.simulator.last_known_price == old(self).simulator.last_known_price,
                self.bonds_info == old(self).bonds_info,
                self.bond_isins == old(self).bond_isins,
                self.payments == old(self).payments,
                self.snapshots == old(self).snapshots,
                self.initial_capital == old(self).initial_capital,
                self.start_date == old(self).start_date,
            decreases n - i,
        {
            assert(infos.take(i + 1).drop_last() =~= infos.take(i as int));
            assert(infos.take(i + 1).last() == infos[i as int]);
            let isin = self.bonds_info.key_at(i).clone();
            let due = self.bonds_info.value_ref(i).bond_info.default_date == Some(date);
            let ghost d_before = self.defaulted@;
            let ghost h_before = self.simulator.holdings@;
            let ghost pay_before = self.simulator.payments@;
            let ghost prev = db_defaults_fold(infos.take(i as int), date, d0);
            if due && !self.defaulted.contains_key(&isin) {
                // the defaulted bonds' keys are distinct
                let _ = self.defaulted.len();
                self.default_bond(&isin);
                proof {
                    assert(payments_view(self.simulator.payments@) =~= payments_view(p0)
                        + (prev.events + write_off_events(h_before, isin@, date)));
                    crate::keyed_map::lemma_store(d_before, isin@, true);
                    assert forall|k: Seq<char>| #[trigger] lookup(self.simulator.holdings@, k) == written_off(
                        h0,
                        k,
                        !has_key(def0, k) && db_default_upto(infos, k, date, i + 1),
                    ) by {
                        assert(lookup(self.simulator.holdings@, k) == written_off(h_before, k, k == isin@));
                        assert(lookup(h_before, k) == written_off(h0, k, !has_key(def0, k) && db_default_upto(infos, k, date, i as int)));
                        assert(has_key(d_before, k) <==> (has_key(def0, k) || db_default_upto(infos, k, date, i as int)));
                    }
                }
            } else {
                proof {
                    assert forall|k: Seq<char>| #[trigger] lookup(self.simulator.holdings@, k) == written_off(
                        h0,
                        k,
                        !has_key(def0, k) && db_default_upto(infos, k, date, i + 1),
                    ) by {
                        assert(lookup(h_before, k) == written_off(h0, k, !has_key(def0, k) && db_default_upto(infos, k, date, i as int)));
                        assert(has_key(d_before, k) <==> (has_key(def0, k) || db_default_upto(infos, k, date, i as int)));
                    }
                }
            }
            assert forall|k: Seq<char>| #[trigger] has_key(self.defaulted@, k) <==> (has_key(def0, k)
                || db_default_upto(infos, k, date, i + 1)) by {
                assert(has_key(d_before, k) <==> (has_key(def0, k) || db_default_upto(infos, k, date, i as int)));
            }
            i = i + 1;
        }
        assert(infos.take(n as int) =~= infos);
        let ghost d1 = db_defaults_fold(infos, date, d0);
        let m = self.simulator.price_cache.len();
        let mut j: usize = 0;
        while j < m
            invariant
                m == pc.len(),
                n == infos.len(),
                infos == self.bonds_info@,
                pc == self.simulator.price_cache@,
                j <= m,
                date == self.simulator.current_date,
                self.simulator.wf(),
                forall|k: Seq<char>| #[trigger] has_key(self.defaulted@, k) <==> (has_key(def0, k)
                    || db_default(infos, k, date) || price_default_upto(pc, k, date, j as int)),
                forall|k: Seq<char>| #[trigger] lookup(self.simulator.holdings@, k) == written_off(
                    h0,
                    k,
                    !has_key(def0, k) && (db_default(infos, k, date) || price_default_upto(pc, k, date, j as int)),
                ),
                self.defaulted@ == price_defaults_fold(pc.take(j as int), date, d1).defaulted,
                self.simulator.holdings@ == price_defaults_fold(pc.take(j as int), date, d1).holdings,
                payments_view(self.simulator.payments@) == payments_view(p0)
                    + price_defaults_fold(pc.take(j as int), date, d1).events,
                self.simulator.portfolio.free_money == old(self).simulator.portfolio.free_money,
                self.simulator.current_date == old(self).simulator.current_date,
                self.simulator.trades == old(self).simulator.trades,
                self.simulator.price_cache == old(self).simulator.price_cache,
                self.simulator.facevalues == old(self).simulator.facevalues,
                self.simulator.issue_volumes == old(self).simulator.issue_volumes,
                self.simulator.last_known_price == old(self).simulator.last_known_price,
                self.bonds_info == old(self).bonds_info,
                self.bond_isins == old(self).bond_isins,
                self.payments == old(self).payments,
                self.snapshots == old(self).snapshots,
                self.initial_capital == old(self).initial_capital,
                self.start_date == old(self).start_date,
            decreases m - j,
        {
            let key = self.simulator.price_cache.key_at(j);
            let day = key.0;
            let isin = key.1.clone();
            let e = self.simulator.price_cache.value_at(j);
            let ghost d_before = self.defaulted@;
            let ghost h_before = self.simulator.holdings@;
            let ghost prev = price_defaults_fold(pc.take(j as int), date, d1);
            assert(pc[j as int].0 == (day, isin@));
            assert(pc.take(j + 1).drop_last() =~= pc.take(j as int));
            assert(pc.take(j + 1).last() == pc[j as int]);
            if day == date && !self.defaulted.contains_key(&isin) && shows_default(e) {
                // the defaulted bonds' keys are distinct
                let _ = self.defaulted.len();
                self.default_bond(&isin);
                proof {
                    assert(payments_view(self.simulator.payments@) =~= payments_view(p0)
                        + (prev.events + write_off_events(h_before, isin@, date)));
                    crate::keyed_map::lemma_store(d_before, isin@, true);
                    assert forall|k: Seq<char>| #[trigger] lookup(self.simulator.holdings@, k) == written_off(
                        h0,
                        k,
                        !has_key(def0, k) && (db_default(infos, k, date) || price_default_upto(pc, k, date, j + 1)),
                    ) by {
                        assert(lookup(self.simulator.holdings@, k) == written_off(h_before, k, k == isin@));
                        assert(lookup(h_before, k) == written_off(h0, k, !has_key(def0, k) && (db_default(infos, k, date) || price_default_upto(pc, k, date, j as int))));
                        assert(has_key(d_before, k) <==> (has_key(def0, k) || db_default(infos, k, date) || price_default_upto(pc, k, date, j as int)));
                    }
                }
            } else {
                proof {
                    assert forall|k: Seq<char>| #[trigger] lookup(self.simulator.holdings@, k) == written_off(
                        h0,
                        k,
                        !has_key(def0, k) && (db_default(infos, k, date) || price_default_upto(pc, k, date, j + 1)),
                    ) by {
                        assert(lookup(h_before, k) == written_off(h0, k, !has_key(def0, k) && (db_default(infos, k, date) || price_default_upto(pc, k, date, j as int))));
                        assert(has_key(d_before, k) <==> (has_key(def0, k) || db_default(infos, k, date) || price_default_upto(pc, k, date, j as int)));
                    }
                }
            }
            assert forall|k: Seq<char>| #[trigger] has_key(self.defaulted@, k) <==> (has_key(def0, k)
                || db_default(infos, k, date) || price_default_upto(pc, k, date, j + 1)) by {
                assert(has_key(d_before, k) <==> (has_key(def0, k) || db_default(infos, k, date) || price_default_upto(pc, k, date, j as int)));
            }
            j = j + 1;
        }
        assert(pc.take(m as int) =~= pc);
    }
}

/// The cash and the holdings of the account as values of the model.
pub struct AccountView {
    pub free: Dec,
    pub holdings: Seq<(Seq<char>, i64)>,
}

/// The account of a simulator.
pub open spec fn account_view(s: MarketSimulator) -> AccountView {
    AccountView { free: s.portfolio.free_money, holdings: s.holdings@ }
}

/// The account after redeeming at face value, in order, the bonds whose
/// offer date is `date`.
pub open spec fn offers_fold(
    infos: Seq<(Seq<char>, BondPersistentInfo)>,
    date: Date,
    a: AccountView,
    facevalues: Seq<(Seq<char>, Dec)>,
) -> AccountView
    decreases infos.len(),
{
    if infos.len() == 0 {
        a
    } else {
        let r = offers_fold(infos.drop_last(), date, a, facevalues);
        let e = infos.last();
        if e.1.bond_info.offer_date == Some(date) {
            match redemption_credit_in(r.free, r.holdings, facevalues, e.0) {
                Some(f) => AccountView { free: f, holdings: store(r.holdings, e.0, 0) },
                None => r,
            }
        } else {
            r
        }
    }
}

/// The records of the redemptions that `offers_fold` makes, in order.
pub open spec fn offer_events(
    infos: Seq<(Seq<char>, BondPersistentInfo)>,
    date: Date,
    a: AccountView,
    facevalues: Seq<(Seq<char>, Dec)>,
) -> Seq<PaymentView>
    decreases infos.len(),
{
    if infos.len() == 0 {
        Seq::empty()
    } else {
        let r = offers_fold(infos.drop_last(), date, a, facevalues);
        let ev = offer_events(infos.drop_last(), date, a, facevalues);
        let e = infos.last();
        if e.1.bond_info.offer_date == Some(date) && redemption_credit_in(r.free, r.holdings, facevalues, e.0) is Some {
            let quantity = lookup(r.holdings, e.0)->0;
            let facevalue = lookup(facevalues, e.0)->0;
            ev.push(
                PaymentView {
                    date,
                    isin: e.0,
                    quantity,
                    amount_per_unit: facevalue,
                    total_amount: decimal_checked_mul(facevalue, spec_from_i64(quantity))->0,
                    payment_type: "offer_redemption"@,
                },
            )
        } else {
            ev
        }
    }
}

/// Offers redeem only bonds whose offer falls on the day: each redemption
/// is of a held bond with an offer on that day, dated that day; a bond with
/// no offer on that day keeps its position, and a redeemed one drops to zero.
pub proof fn law_offers_redeem_only_todays_offers(
    infos: Seq<(Seq<char>, BondPersistentInfo)>,
    date: Date,
    a: AccountView,
    facevalues: Seq<(Seq<char>, Dec)>,
)
    requires
        keys_distinct(a.holdings),
    ensures
        keys_distinct(offers_fold(infos, date, a, facevalues).holdings),
        forall|i: int| 0 <= i < offer_events(infos, date, a, facevalues).len() ==> {
            let ev = #[trigger] offer_events(infos, date, a, facevalues)[i];
            &&& ev.date == date
            &&& ev.payment_type == "offer_redemption"@
            &&& ev.quantity != 0
            &&& exists|j: int| 0 <= j < infos.len() && infos[j].0 == ev.isin
                && infos[j].1.bond_info.offer_date == Some(date)
        },
        forall|k: Seq<char>| (forall|j: int| 0 <= j < infos.len() && infos[j].0 == k
            ==> infos[j].1.bond_info.offer_date != Some(date))
            ==> #[trigger] lookup(offers_fold(infos, date, a, facevalues).holdings, k) == lookup(a.holdings, k),
        forall|k: Seq<char>| #[trigger] lookup(offers_fold(infos, date, a, facevalues).holdings, k) == lookup(a.holdings, k)
            || lookup(offers_fold(infos, date, a, facevalues).holdings, k) == Some(0i64),
    decreases infos.len(),
{
    if infos.len() > 0 {
        let t = infos.drop_last();
        law_offers_redeem_only_todays_offers(t, date, a, facevalues);
        let r = offers_fold(t, date, a, facevalues);
        let ev0 = offer_events(t, date, a, facevalues);
        let e = infos.last();
        let last = infos.len() - 1;
        assert(infos[last] == e);
        let res = offers_fold(infos, date, a, facevalues);
        if e.1.bond_info.offer_date == Some(date) && redemption_credit_in(r.free, r.holdings, facevalues, e.0) is Some {
            crate::keyed_map::lemma_store(r.holdings, e.0, 0i64);
        }
        let evs = offer_events(infos, date, a, facevalues);
        assert forall|i: int| 0 <= i < evs.len() implies {
            let ev = #[trigger] evs[i];
            &&& ev.date == date
            &&& ev.payment_type == "offer_redemption"@
            &&& ev.quantity != 0
            &&& exists|j: int| 0 <= j < infos.len() && infos[j].0 == ev.isin
                && infos[j].1.bond_info.offer_date == Some(date)
        } by {
            if i < ev0.len() {
                assert(evs[i] == ev0[i]);
                let j = choose|j: int| 0 <= j < t.len() && t[j].0 == ev0[i].isin
                    && t[j].1.bond_info.offer_date == Some(date);
                assert(infos[j] == t[j]);
            }
        }
        assert forall|k: Seq<char>| (forall|j: int| 0 <= j < infos.len() && infos[j].0 == k
            ==> infos[j].1.bond_info.offer_date != Some(date))
            implies #[trigger] lookup(res.holdings, k) == lookup(a.holdings, k) by {
            assert forall|j: int| 0 <= j < t.len() && t[j].0 == k implies t[j].1.bond_info.offer_date != Some(date) by {
                assert(infos[j] == t[j]);
                assert(infos[j].0 == k);
                assert(infos[j].1.bond_info.offer_date != Some(date));
            }
            assert(lookup(r.holdings, k) == lookup(a.holdings, k));
            if e.0 == k {
                assert(infos[last].0 == k);
                assert(infos[last].1.bond_info.offer_date != Some(date));
            }
        }
        assert forall|k: Seq<char>| #[trigger] lookup(res.holdings, k) == lookup(a.holdings, k)
            || lookup(res.holdings, k) == Some(0i64) by {
            assert(lookup(r.holdings, k) == lookup(a.holdings, k) || lookup(r.holdings, k) == Some(0i64));
        }
    }
}

/// Payments are credited only on their day, only for bonds not in default,
/// and only to positions that hold some of the bond, by the number held.
pub proof fn law_payments_only_on_their_day(
    flat: Seq<IsinPaymentView>,
    date: Date,
    defaulted: Seq<(Seq<char>, bool)>,
    holdings: Seq<(Seq<char>, i64)>,
    facevalues: Seq<(Seq<char>, Dec)>,
    free: Dec,
)
    ensures
        forall|i: int| 0 <= i < payment_events(flat, date, defaulted, holdings, facevalues, free).len() ==> {
            let ev = #[trigger] payment_events(flat, date, defaulted, holdings, facevalues, free)[i];
            &&& ev.date == date
            &&& !has_key(defaulted, ev.isin)
            &&& lookup(holdings, ev.isin) == Some(ev.quantity)
            &&& ev.quantity != 0
            &&& exists|j: int| 0 <= j < flat.len() && flat[j].isin == ev.isin && flat[j].date == date
        },
    decreases flat.len(),
{
    if flat.len() > 0 {
        let t = flat.drop_last();
        law_payments_only_on_their_day(t, date, defaulted, holdings, facevalues, free);
        let ev0 = payment_events(t, date, defaulted, holdings, facevalues, free);
        let evs = payment_events(flat, date, defaulted, holdings, facevalues, free);
        let last = flat.len() - 1;
        assert(flat[last] == flat.last());
        assert forall|i: int| 0 <= i < evs.len() implies {
            let ev = #[trigger] evs[i];
            &&& ev.date == date
            &&& !has_key(defaulted, ev.isin)
            &&& lookup(holdings, ev.isin) == Some(ev.quantity)
            &&& ev.quantity != 0
            &&& exists|j: int| 0 <= j < flat.len() && flat[j].isin == ev.isin && flat[j].date == date
        } by {
            if i < ev0.len() {
                assert(evs[i] == ev0[i]);
                let j = choose|j: int| 0 <= j < t.len() && t[j].isin == ev0[i].isin && t[j].date == date;
                assert(flat[j] == t[j]);
            }
        }
    }
}

/// Offers on an account that holds nothing redeem nothing.
proof fn lemma_idle_offers(
    infos: Seq<(Seq<char>, BondPersistentInfo)>,
    date: Date,
    a: AccountView,
    facevalues: Seq<(Seq<char>, Dec)>,
)
    requires
        holds_nothing(a.holdings),
    ensures
        offers_fold(infos, date, a, facevalues) == a,
        offer_events(infos, date, a, facevalues).len() == 0,
    decreases infos.len(),
{
    if infos.len() > 0 {
        lemma_idle_offers(infos.drop_last(), date, a, facevalues);
        lemma_nothing_held(a.holdings, infos.last().0);
    }
}

/// A payment in roubles as a percentage of the face value.
pub open spec fn payment_percent(amount: Dec, facevalue: Dec) -> Option<Dec> {
    match decimal_checked_div(amount, facevalue) {
        None => None,
        Some(q) => decimal_checked_mul(q, spec_from_i64(100)),
    }
}

/// The free cash after crediting, in order, today's payments of bonds not in
/// default whose face value is known.
pub open spec fn payments_fold(
    flat: Seq<IsinPaymentView>,
    date: Date,
    defaulted: Seq<(Seq<char>, bool)>,
    holdings: Seq<(Seq<char>, i64)>,
    facevalues: Seq<(Seq<char>, Dec)>,
    free: Dec,
) -> Dec
    decreases flat.len(),
{
    if flat.len() == 0 {
        free
    } else {
        let f = payments_fold(flat.drop_last(), date, defaulted, holdings, facevalues, free);
        let p = flat.last();
        if p.date == date && !has_key(defaulted, p.isin) {
            match lookup(facevalues, p.isin) {
                None => f,
                Some(fv) => match payment_percent(p.amount, fv) {
                    None => f,
                    Some(pct) => match payment_credit_in(f, holdings, facevalues, p.isin, pct) {
                        None => f,
                        Some(c) => c.free_money,
                    },
                },
            }
        } else {
            f
        }
    }
}

/// The records of the payments that `payments_fold` credits, in order.
pub open spec fn payment_events(
    flat: Seq<IsinPaymentView>,
    date: Date,
    defaulted: Seq<(Seq<char>, bool)>,
    holdings: Seq<(Seq<char>, i64)>,
    facevalues: Seq<(Seq<char>, Dec)>,
    free: Dec,
) -> Seq<PaymentView>
    decreases flat.len(),
{
    if flat.len() == 0 {
        Seq::empty()
    } else {
        let f = payments_fold(flat.drop_last(), date, defaulted, holdings, facevalues, free);
        let ev = payment_events(flat.drop_last(), date, defaulted, holdings, facevalues, free);
        let p = flat.last();
        if p.date == date && !has_key(defaulted, p.isin) {
            match lookup(facevalues, p.isin) {
                None => ev,
                Some(fv) => match payment_percent(p.amount, fv) {
                    None => ev,
                    Some(pct) => match payment_credit_in(f, holdings, facevalues, p.isin, pct) {
                        None => ev,
                        Some(c) => ev.push(
                            PaymentView {
                                date,
                                isin: p.isin,
                                quantity: c.quantity,
                                amount_per_unit: c.per_unit,
                                total_amount: c.total,
                                payment_type: kind_name_spec(p.kind),
                            },
                        ),
                    },
                },
            }
        } else {
            ev
        }
    }
}

/// Payments on holdings that hold nothing credit nothing.
proof fn lemma_idle_payments(
    flat: Seq<IsinPaymentView>,
    date: Date,
    defaulted: Seq<(Seq<char>, bool)>,
    holdings: Seq<(Seq<char>, i64)>,
    facevalues: Seq<(Seq<char>, Dec)>,
    free: Dec,
)
    requires
        holds_nothing(holdings),
    ensures
        payments_fold(flat, date, defaulted, holdings, facevalues, free) == free,
        payment_events(flat, date, defaulted, holdings, facevalues, free).len() == 0,
    decreases flat.len(),
{
    if flat.len() > 0 {
        lemma_idle_payments(flat.drop_last(), date, defaulted, holdings, facevalues, free);
        lemma_nothing_held(holdings, flat.last().isin);
    }
}

/// The name of a kind of payment.
pub open spec fn kind_name_spec(k: PaymentType) -> Seq<char> {
    match k {
        PaymentType::Coupon => "coupon"@,
        PaymentType::Amortization => "amortization"@,
        PaymentType::Redemption => "redemption"@,
    }
}

/// The name of a kind of payment.
pub fn kind_name(k: PaymentType) -> (r: String)
    ensures
        r@ == kind_name_spec(k),
{
    match k {
        PaymentType::Coupon => String::from_str("coupon"),
        PaymentType::Amortization => String::from_str("amortization"),
        PaymentType::Redemption => String::from_str("redemption"),
    }
}

/// A payment in roubles as a percentage of the face value: where no step
/// rounds, exactly `100 * amount / facevalue`.
pub fn percent_of_facevalue(amount: Dec, facevalue: Dec) -> (r: Option<Dec>)
    ensures
        r == payment_percent(amount, facevalue),
        facevalue.m() == 0 ==> r is None,
        abs(facevalue.m()) < two32() && (exists|k: nat| #[trigger] quotient_fits_at(amount, facevalue, k))
            && (exists|k: nat| #[trigger] product_fits_after(decimal_checked_div(amount, facevalue)->0, spec_from_i64(100), k))
            ==> (r matches Some(pct) && pct.val() * facevalue.val() == 100 * amount.val() * pow10(28)),
{
    let hundred = from_i64(100);
    proof {
        lemma_from_i64_is_spec(hundred, 100);
        lemma_pow10_positive(28);
        if abs(facevalue.m()) < two32() && (exists|k: nat| #[trigger] quotient_fits_at(amount, facevalue, k)) {
            let k = choose|k: nat| #[trigger] quotient_fits_at(amount, facevalue, k);
            assert(quotient_fits_at(amount, facevalue, k));
        }
    }
    match checked_div(amount, facevalue) {
        None => None,
        Some(q) => {
            proof {
                if exists|k: nat| #[trigger] product_fits_after(q, spec_from_i64(100), k) {
                    let k = choose|k: nat| #[trigger] product_fits_after(q, spec_from_i64(100), k);
                    assert(product_fits_after(q, hundred, k));
                }
            }
            let r = checked_mul(q, hundred);
            proof {
                if abs(facevalue.m()) < two32() && (exists|k: nat| #[trigger] quotient_fits_at(amount, facevalue, k))
                    && (exists|k: nat| #[trigger] product_fits_after(q, spec_from_i64(100), k)) {
                    let big = pow10(28);
                    let z = r->0.val();
                    assert(z * big == q.val() * (100 * big));
                    assert(q.val() * facevalue.val() == amount.val() * big);
                    assert(z * facevalue.val() == 100 * amount.val() * big) by (nonlinear_arith)
                        requires
                            big > 0,
                            z * big == q.val() * (100 * big),
                            q.val() * facevalue.val() == amount.val() * big,
                    {
                        assert(z == 100 * q.val()) by (nonlinear_arith)
                            requires
                                big > 0,
                                z * big == q.val() * (100 * big),
                        ;
                    }
                }
            }
            r
        },
    }
}

impl Backtest {
    /// Redeems at face value the bonds whose offer falls today.
    pub fn apply_offers(&mut self)
        requires
            old(self).simulator.wf(),
        ensures
            final(self).simulator.wf(),
            account_view(final(self).simulator) == offers_fold(
                old(self).bonds_info@,
                old(self).simulator.current_date,
                account_view(old(self).simulator),
                old(self).simulator.facevalues@,
            ),
            payments_view(final(self).simulator.payments@) == payments_view(old(self).simulator.payments@) + offer_events(
                old(self).bonds_info@,
                old(self).simulator.current_date,
                account_view(old(self).simulator),
                old(self).simulator.facevalues@,
            ),
            final(self).simulator.current_date == old(self).simulator.current_date,
            final(self).simulator.trades == old(self).simulator.trades,
            final(self).simulator.price_cache == old(self).simulator.price_cache,
            final(self).simulator.facevalues == old(self).simulator.facevalues,
            final(self).simulator.issue_volumes == old(self).simulator.issue_volumes,
            final(self).simulator.last_known_price == old(self).simulator.last_known_price,
            final(self).bonds_info == old(self).bonds_info,
            final(self).bond_isins == old(self).bond_isins,
            final(self).payments == old(self).payments,
            final(self).defaulted == old(self).defaulted,
            final(self).snapshots == old(self).snapshots,
            final(self).initial_capital == old(self).initial_capital,
            final(self).start_date == old(self).start_date,
    {
        let date = self.simulator.current_date;
        let ghost a0 = account_view(self.simulator);
        let ghost infos = self.bonds_info@;
        let n = self.bonds_info.len();
        let mut i: usize = 0;
        while i < n
            invariant
                n == infos.len(),
                infos == self.bonds_info@,
                i <= n,
                date == self.simulator.current_date,
                self.simulator.wf(),
                account_view(self.simulator) == offers_fold(infos.take(i as int), date, a0, self.simulator.facevalues@),
                payments_view(self.simulator.payments@) == payments_view(old(self).simulator.payments@) + offer_events(
                    infos.take(i as int),
                    date,
                    a0,
                    self.simulator.facevalues@,
                ),
                self.simulator.current_date == old(self).simulator.current_date,
                self.simulator.trades == old(self).simulator.trades,
                self.simulator.price_cache == old(self).simulator.price_cache,
                self.simulator.facevalues == old(self).simulator.facevalues,
                self.simulator.issue_volumes == old(self).simulator.issue_volumes,
                self.simulator.last_known_price == old(self).simulator.last_known_price,
                self.bonds_info == old(self).bonds_info,
                self.bond_isins == old(self).bond_isins,
                self.payments == old(self).payments,
                self.defaulted == old(self).defaulted,
                self.snapshots == old(self).snapshots,
                self.initial_capital == old(self).initial_capital,
                self.start_date == old(self).start_date,
            decreases n - i,
        {
            assert(infos.take(i + 1).drop_last() =~= infos.take(i as int));
            assert(infos.take(i + 1).last() == infos[i as int]);
            let isin = self.bonds_info.key_at(i).clone();
            if self.bonds_info.value_ref(i).bond_info.offer_date == Some(date) {
                let ghost before = self.simulator.payments@;
                let ghost prev = offer_events(infos.take(i as int), date, a0, self.simulator.facevalues@);
                if let Some(r) = self.simulator.force_redeem_bond(&isin) {
                    proof {
                        assert(payments_view(self.simulator.payments@) =~= payments_view(before).push(payment_view(r)));
                        assert((payments_view(old(self).simulator.payments@) + prev).push(payment_view(r))
                            =~= payments_view(old(self).simulator.payments@) + prev.push(payment_view(r)));
                    }
                }
            }
            i = i + 1;
        }
        assert(infos.take(n as int) =~= infos);
    }

    /// Credits today's coupons, amortizations and redemptions of the bonds
    /// not in default whose face value is known, converting each amount in
    /// roubles to a percentage of the face value.
    pub fn apply_payments(&mut self)
        requires
            old(self).simulator.wf(),
        ensures
            final(self).simulator.wf(),
            final(self).simulator.portfolio.free_money == payments_fold(
                isin_payments_view(old(self).payments@),
                old(self).simulator.current_date,
                old(self).defaulted@,
                old(self).simulator.holdings@,
                old(self).simulator.facevalues@,
                old(self).simulator.portfolio.free_money,
            ),
            payments_view(final(self).simulator.payments@) == payments_view(old(self).simulator.payments@) + payment_events(
                isin_payments_view(old(self).payments@),
                old(self).simulator.current_date,
                old(self).defaulted@,
                old(self).simulator.holdings@,
                old(self).simulator.facevalues@,
                old(self).simulator.portfolio.free_money,
            ),
            final(self).simulator.holdings == old(self).simulator.holdings,
            final(self).simulator.portfolio.bonds_count == old(self).simulator.portfolio.bonds_count,
            final(self).simulator.current_date == old(self).simulator.current_date,
            final(self).simulator.trades == old(self).simulator.trades,
            final(self).simulator.price_cache == old(self).simulator.price_cache,
            final(self).simulator.facevalues == old(self).simulator.facevalues,
            final(self).simulator.issue_volumes == old(self).simulator.issue_volumes,
            final(self).simulator.last_known_price == old(self).simulator.last_known_price,
            final(self).bonds_info == old(self).bonds_info,
            final(self).bond_isins == old(self).bond_isins,
            final(self).payments == old(self).payments,
            final(self).defaulted == old(self).defaulted,
            final(self).snapshots == old(self).snapshots,
            final(self).initial_capital == old(self).initial_capital,
            final(self).start_date == old(self).start_date,
    {
        let date = self.simulator.current_date;
        let ghost flat = isin_payments_view(self.payments@);
        let ghost free0 = self.simulator.portfolio.free_money;
        let n = self.payments.len();
        let mut i: usize = 0;
        while i < n
            invariant
                n == flat.len(),
                flat == isin_payments_view(self.payments@),
                i <= n,
                date == self.simulator.current_date,
                self.simulator.wf(),
                self.simulator.portfolio.free_money == payments_fold(
                    flat.take(i as int),
                    date,
                    self.defaulted@,
                    self.simulator.holdings@,
                    self.simulator.facevalues@,
                    free0,
                ),
                payments_view(self.simulator.payments@) == payments_view(old(self).simulator.payments@) + payment_events(
                    flat.take(i as int),
                    date,
                    self.defaulted@,
                    self.simulator.holdings@,
                    self.simulator.facevalues@,
                    free0,
                ),
                self.simulator.holdings == old(self).simulator.holdings,
                self.simulator.portfolio.bonds_count == old(self).simulator.portfolio.bonds_count,
                self.simulator.current_date == old(self).simulator.current_date,
                self.simulator.trades == old(self).simulator.trades,
                self.simulator.price_cache == old(self).simulator.price_cache,
                self.simulator.facevalues == old(self).simulator.facevalues,
                self.simulator.issue_volumes == old(self).simulator.issue_volumes,
                self.simulator.last_known_price == old(self).simulator.last_known_price,
                self.bonds_info == old(self).bonds_info,
                self.bond_isins == old(self).bond_isins,
                self.payments == old(self).payments,
                self.defaulted == old(self).defaulted,
                self.snapshots == old(self).snapshots,
                self.initial_capital == old(self).initial_capital,
                self.start_date == old(self).start_date,
            decreases n - i,
        {
            assert(flat.take(i + 1).drop_last() =~= flat.take(i as int));
            assert(flat.take(i + 1).last() == isin_payment_view(self.payments@[i as int]));
            let p_date = self.payments[i].date;
            let p_amount = self.payments[i].amount;
            let p_kind = self.payments[i].kind;
            let isin = self.payments[i].isin.clone();
            if p_date == date && !self.defaulted.contains_key(&isin) {
                if let Some(fv) = self.simulator.facevalues.get(&isin) {
                    if let Some(pct) = percent_of_facevalue(p_amount, fv) {
                        let ghost before = self.simulator.payments@;
                        let ghost prev = payment_events(
                            flat.take(i as int),
                            date,
                            self.defaulted@,
                            self.simulator.holdings@,
                            self.simulator.facevalues@,
                            free0,
                        );
                        if let Some(r) = self.simulator.process_payment(isin, pct, kind_name(p_kind)) {
                            proof {
                                assert(payments_view(self.simulator.payments@) =~= payments_view(before).push(payment_view(r)));
                                assert((payments_view(old(self).simulator.payments@) + prev).push(payment_view(r))
                                    =~= payments_view(old(self).simulator.payments@) + prev.push(payment_view(r)));
                            }
                        }
                    }
                }
            }
            i = i + 1;
        }
        assert(flat.take(n as int) =~= flat);
    }
}

/// Today's candle of a bond, or else its latest one.
pub open spec fn entry_for(
    pc: Seq<((Date, Seq<char>), PriceEntry)>,
    latest: Seq<(Seq<char>, PriceEntry)>,
    date: Date,
    k: Seq<char>,
) -> Option<PriceEntry> {
    match lookup(pc, (date, k)) {
        Some(e) => Some(e),
        None => lookup(latest, k),
    }
}

/// The dirty price in roubles at the middle of a candle's range:
/// `(low + high) / 2 / 100 * facevalue + accint`, zero when it overflows.
pub open spec fn mid_price_rubles(e: PriceEntry) -> Dec {
    match decimal_checked_add(e.low, e.high) {
        None => spec_from_i64(0),
        Some(sum) => match decimal_checked_div(sum, spec_from_i64(2)) {
            None => spec_from_i64(0),
            Some(mid) => match decimal_checked_div(mid, spec_from_i64(100)) {
                None => spec_from_i64(0),
                Some(fraction) => match decimal_checked_mul(fraction, e.facevalue) {
                    None => spec_from_i64(0),
                    Some(clean) => match decimal_checked_add(clean, e.accint) {
                        None => spec_from_i64(0),
                        Some(p) => p,
                    },
                },
            },
        },
    }
}

/// Whether no step of the middle dirty price of a candle rounds: the sum of
/// the low and high prices, its halving, the division by a hundred and the
/// product with the face value are exact, and so is the addition of the
/// accrued interest.
pub open spec fn mid_price_is_exact(e: PriceEntry) -> bool {
    let sum = decimal_checked_add(e.low, e.high)->0;
    let mid = decimal_checked_div(sum, spec_from_i64(2))->0;
    let fraction = decimal_checked_div(mid, spec_from_i64(100))->0;
    let clean = decimal_checked_mul(fraction, e.facevalue)->0;
    &&& sum_is_exact(e.low, e.high, 1)
    &&& exists|k: nat| #[trigger] quotient_fits_at(sum, spec_from_i64(2), k)
    &&& exists|k: nat| #[trigger] quotient_fits_at(mid, spec_from_i64(100), k)
    &&& exists|k: nat| #[trigger] product_fits_after(fraction, e.facevalue, k)
    &&& sum_is_exact(clean, e.accint, 1)
}

/// The middle dirty price of a candle as a number: `(low + high) / 2 / 100 *
/// facevalue + accint`, both sides scaled by `200 * 10^28` (values are in
/// units of `10^-28`).
pub open spec fn is_mid_dirty_price(p: Dec, e: PriceEntry) -> bool {
    p.val() * (200 * pow10(28)) == (e.low.val() + e.high.val()) * e.facevalue.val() + 200 * pow10(28) * e.accint.val()
}

/// The prices handed to the strategy: for each tradable bond not in default
/// whose candle (today's or the latest) shows trading, its middle dirty price.
pub open spec fn prices_spec(
    infos: Seq<(Seq<char>, BondPersistentInfo)>,
    defaulted: Seq<(Seq<char>, bool)>,
    pc: Seq<((Date, Seq<char>), PriceEntry)>,
    latest: Seq<(Seq<char>, PriceEntry)>,
    date: Date,
) -> Seq<(Seq<char>, Dec)>
    decreases infos.len(),
{
    if infos.len() == 0 {
        Seq::empty()
    } else {
        let rest = prices_spec(infos.drop_last(), defaulted, pc, latest, date);
        let k = infos.last().0;
        if has_key(defaulted, k) {
            rest
        } else {
            match entry_for(pc, latest, date, k) {
                Some(e) => if e.volume.val() > 0 {
                    store(rest, k, mid_price_rubles(e))
                } else {
                    rest
                },
                None => rest,
            }
        }
    }
}

/// The price handed to the strategy for a bond that is not in default and
/// whose candle (today's, else the latest) shows trading is the candle's
/// middle dirty price: the clean price `(low + high) / 2 / 100 * facevalue`
/// with the accrued interest added.  A bond in default, or without such a
/// candle, gets no price.
pub proof fn law_strategy_price_is_dirty_mid_price(
    infos: Seq<(Seq<char>, BondPersistentInfo)>,
    defaulted: Seq<(Seq<char>, bool)>,
    pc: Seq<((Date, Seq<char>), PriceEntry)>,
    latest: Seq<(Seq<char>, PriceEntry)>,
    date: Date,
    k: Seq<char>,
)
    requires
        keys_distinct(infos),
    ensures
        has_key(prices_spec(infos, defaulted, pc, latest, date), k) <==> (has_key(infos, k) && !has_key(defaulted, k)
            && (entry_for(pc, latest, date, k) matches Some(e) && e.volume.val() > 0)),
        has_key(infos, k) && !has_key(defaulted, k) && (entry_for(pc, latest, date, k) matches Some(e) && e.volume.val() > 0)
            ==> lookup(prices_spec(infos, defaulted, pc, latest, date), k) == Some(mid_price_rubles(entry_for(pc, latest, date, k)->0)),
{
    lemma_prices_spec_keys(infos, defaulted, pc, latest, date, k);
}

/// The middle dirty price of a candle is its clean price (the middle of the
/// low and high prices, in percent, times the face value) with the accrued
/// interest added, whenever each of these steps succeeds.
pub proof fn law_mid_price_adds_accrued_interest(
    e: PriceEntry,
    sum: Dec,
    mid: Dec,
    fraction: Dec,
    clean: Dec,
    dirty: Dec,
)
    requires
        decimal_checked_add(e.low, e.high) == Some(sum),
        decimal_checked_div(sum, spec_from_i64(2)) == Some(mid),
        decimal_checked_div(mid, spec_from_i64(100)) == Some(fraction),
        decimal_checked_mul(fraction, e.facevalue) == Some(clean),
        decimal_checked_add(clean, e.accint) == Some(dirty),
    ensures
        mid_price_rubles(e) == dirty,
{
}

/// The keys and values of the prices handed to the strategy.
proof fn lemma_prices_spec_keys(
    infos: Seq<(Seq<char>, BondPersistentInfo)>,
    defaulted: Seq<(Seq<char>, bool)>,
    pc: Seq<((Date, Seq<char>), PriceEntry)>,
    latest: Seq<(Seq<char>, PriceEntry)>,
    date: Date,
    k: Seq<char>,
)
    requires
        keys_distinct(infos),
    ensures
        keys_distinct(prices_spec(infos, defaulted, pc, latest, date)),
        has_key(prices_spec(infos, defaulted, pc, latest, date), k) <==> (has_key(infos, k) && !has_key(defaulted, k)
            && (entry_for(pc, latest, date, k) matches Some(e) && e.volume.val() > 0)),
        has_key(infos, k) && !has_key(defaulted, k) && (entry_for(pc, latest, date, k) matches Some(e) && e.volume.val() > 0)
            ==> lookup(prices_spec(infos, defaulted, pc, latest, date), k) == Some(mid_price_rubles(entry_for(pc, latest, date, k)->0)),
    decreases infos.len(),
{
    if infos.len() > 0 {
        let t = infos.drop_last();
        assert(keys_distinct(t)) by {
            assert forall|i: int, j: int| 0 <= i < t.len() && 0 <= j < t.len() && i != j implies t[i].0 != t[j].0 by {
                assert(t[i] == infos[i] && t[j] == infos[j]);
            }
        }
        let last = infos.last().0;
        lemma_prices_spec_keys(t, defaulted, pc, latest, date, k);
        lemma_prices_spec_keys(t, defaulted, pc, latest, date, last);
        let rest = prices_spec(t, defaulted, pc, latest, date);
        assert(infos[infos.len() - 1] == infos.last());
        assert(has_key(infos, k) <==> (has_key(t, k) || k == last)) by {
            if has_key(infos, k) {
                let i = choose|i: int| 0 <= i < infos.len() && infos[i].0 == k;
                if i < t.len() {
                    assert(t[i] == infos[i]);
                }
            }
            if has_key(t, k) {
                let i = choose|i: int| 0 <= i < t.len() && t[i].0 == k;
                assert(t[i] == infos[i]);
            }
        }
        assert(!has_key(t, last)) by {
            if has_key(t, last) {
                let i = choose|i: int| 0 <= i < t.len() && t[i].0 == last;
                assert(t[i] == infos[i]);
            }
        }
        if !has_key(defaulted, last) {
            if let Some(e) = entry_for(pc, latest, date, last) {
                if e.volume.val() > 0 {
                    crate::keyed_map::lemma_store(rest, last, mid_price_rubles(e));
                }
            }
        }
    }
}

/// The volumes handed to the strategy: for each tradable bond not in
/// default, today's volume (as a whole number), or zero when it only has an
/// older candle.
pub open spec fn volumes_spec(
    infos: Seq<(Seq<char>, BondPersistentInfo)>,
    defaulted: Seq<(Seq<char>, bool)>,
    pc: Seq<((Date, Seq<char>), PriceEntry)>,
    latest: Seq<(Seq<char>, PriceEntry)>,
    date: Date,
) -> Seq<(Seq<char>, i64)>
    decreases infos.len(),
{
    if infos.len() == 0 {
        Seq::empty()
    } else {
        let rest = volumes_spec(infos.drop_last(), defaulted, pc, latest, date);
        let k = infos.last().0;
        if has_key(defaulted, k) {
            rest
        } else {
            match lookup(pc, (date, k)) {
                Some(e) => store(rest, k, saturating_int(e.volume)),
                None => if has_key(latest, k) {
                    store(rest, k, 0)
                } else {
                    rest
                },
            }
        }
    }
}

/// The account and the refusals after executing orders in turn at the
/// middle price of today's candles.
pub struct OrdersView {
    pub account: AccountView,
    pub errors: Seq<Option<OrderError>>,
    /// The trades made, in order.
    pub trades: Seq<TradeView>,
}

/// Executing orders in turn: each fill updates the cash and the position;
/// a refused order changes nothing.
pub open spec fn orders_fold(
    orders: Seq<OrderView>,
    pc: Seq<((Date, Seq<char>), PriceEntry)>,
    date: Date,
    issue_volumes: Seq<(Seq<char>, i64)>,
    a: AccountView,
) -> OrdersView
    decreases orders.len(),
{
    if orders.len() == 0 {
        OrdersView { account: a, errors: Seq::empty(), trades: Seq::empty() }
    } else {
        let r = orders_fold(orders.drop_last(), pc, date, issue_volumes, a);
        let o = orders.last();
        match outcome_of(
            lookup(pc, (date, o.isin)),
            lookup(issue_volumes, o.isin),
            held_of(r.account.holdings, o.isin),
            r.account.free,
            o.order_type == MarketOrderType::Buy,
            o.count,
            true,
        ) {
            Ok(fill) => OrdersView {
                account: AccountView { free: fill.free_money, holdings: store(r.account.holdings, o.isin, fill.holding) },
                errors: r.errors.push(None),
                trades: r.trades.push(
                    TradeView {
                        date,
                        isin: o.isin,
                        quantity: o.count,
                        price: fill.price,
                        accint: lookup(pc, (date, o.isin))->0.accint,
                        total_amount: fill.amount,
                        side: if o.order_type == MarketOrderType::Buy { "buy"@ } else { "sell"@ },
                    },
                ),
            },
            Err(e) => OrdersView { account: r.account, errors: r.errors.push(Some(e)), trades: r.trades },
        }
    }
}

/// The number of orders executed (those not refused).
pub open spec fn executed_count(errors: Seq<Option<OrderError>>) -> nat
    decreases errors.len(),
{
    if errors.len() == 0 {
        0
    } else {
        executed_count(errors.drop_last()) + if errors.last() is None {
            1nat
        } else {
            0nat
        }
    }
}

/// Orders of which none is executed leave the account as it was.
proof fn lemma_no_trade_no_change(
    orders: Seq<OrderView>,
    pc: Seq<((Date, Seq<char>), PriceEntry)>,
    date: Date,
    issue_volumes: Seq<(Seq<char>, i64)>,
    a: AccountView,
)
    requires
        orders_fold(orders, pc, date, issue_volumes, a).trades.len() == 0,
    ensures
        orders_fold(orders, pc, date, issue_volumes, a).account == a,
    decreases orders.len(),
{
    if orders.len() > 0 {
        lemma_trades_grow(orders.drop_last(), pc, date, issue_volumes, a);
        lemma_no_trade_no_change(orders.drop_last(), pc, date, issue_volumes, a);
    }
}

/// Executing orders never forgets a trade.
proof fn lemma_trades_grow(
    orders: Seq<OrderView>,
    pc: Seq<((Date, Seq<char>), PriceEntry)>,
    date: Date,
    issue_volumes: Seq<(Seq<char>, i64)>,
    a: AccountView,
)
    ensures
        orders.len() > 0 ==> orders_fold(orders.drop_last(), pc, date, issue_volumes, a).trades.len()
            <= orders_fold(orders, pc, date, issue_volumes, a).trades.len(),
{
}

/// A day of an account that holds no bond: the day's defaults write nothing
/// off, its offers redeem nothing, its payments credit nothing, orders of
/// which none is executed change nothing, and the account is worth its
/// cash alone.
pub proof fn law_idle_day(
    infos: Seq<(Seq<char>, BondPersistentInfo)>,
    pc: Seq<((Date, Seq<char>), PriceEntry)>,
    latest: Seq<(Seq<char>, PriceEntry)>,
    date: Date,
    holdings: Seq<(Seq<char>, i64)>,
    defaulted: Seq<(Seq<char>, bool)>,
    facevalues: Seq<(Seq<char>, Dec)>,
    flat: Seq<IsinPaymentView>,
    free: Dec,
    orders: Seq<OrderView>,
    issue_volumes: Seq<(Seq<char>, i64)>,
)
    requires
        holds_nothing(holdings),
    ensures
        ({
            let d = defaults_of_day(infos, pc, date, holdings, defaulted);
            let a = AccountView { free, holdings };
            &&& d.holdings == holdings
            &&& d.events.len() == 0
            &&& offers_fold(infos, date, a, facevalues) == a
            &&& offer_events(infos, date, a, facevalues).len() == 0
            &&& payments_fold(flat, date, d.defaulted, holdings, facevalues, free) == free
            &&& payment_events(flat, date, d.defaulted, holdings, facevalues, free).len() == 0
            &&& (orders_fold(orders, pc, date, issue_volumes, a).trades.len() == 0
                ==> orders_fold(orders, pc, date, issue_volumes, a).account == a)
            &&& account_value(free, holdings, pc, latest, date) == Some(free)
        }),
{
    let d0 = DefaultsView { defaulted, holdings, events: Seq::empty() };
    lemma_idle_db_defaults(infos, date, d0);
    lemma_idle_price_defaults(pc, date, db_defaults_fold(infos, date, d0));
    let d = defaults_of_day(infos, pc, date, holdings, defaulted);
    let a = AccountView { free, holdings };
    lemma_idle_offers(infos, date, a, facevalues);
    lemma_idle_payments(flat, date, d.defaulted, holdings, facevalues, free);
    if orders_fold(orders, pc, date, issue_volumes, a).trades.len() == 0 {
        lemma_no_trade_no_change(orders, pc, date, issue_volumes, a);
    }
    lemma_idle_account_value(free, holdings, pc, latest, date);
}

/// The middle dirty price of a candle in roubles.
fn mid_price(e: PriceEntry) -> (r: Dec)
    ensures
        r == mid_price_rubles(e),
        mid_price_is_exact(e) ==> is_mid_dirty_price(r, e),
{
    let zero_d = from_i64(0);
    let two = from_i64(2);
    let hundred = from_i64(100);
    proof {
        lemma_from_i64_is_spec(zero_d, 0);
        lemma_from_i64_is_spec(two, 2);
        lemma_from_i64_is_spec(hundred, 100);
        lemma_pow10_positive(28);
    }
    match checked_add(e.low, e.high) {
        None => zero_d,
        Some(sum) => {
            proof {
                if mid_price_is_exact(e) {
                    let k = choose|k: nat| #[trigger] quotient_fits_at(sum, spec_from_i64(2), k);
                    assert(quotient_fits_at(sum, two, k));
                }
            }
            match checked_div(sum, two) {
                None => zero_d,
                Some(mid) => {
                    proof {
                        if mid_price_is_exact(e) {
                            let k = choose|k: nat| #[trigger] quotient_fits_at(mid, spec_from_i64(100), k);
                            assert(quotient_fits_at(mid, hundred, k));
                        }
                    }
                    match checked_div(mid, hundred) {
                        None => zero_d,
                        Some(fraction) => {
                            proof {
                                if mid_price_is_exact(e) {
                                    let k = choose|k: nat| #[trigger] product_fits_after(fraction, e.facevalue, k);
                                    assert(product_fits_after(fraction, e.facevalue, k));
                                }
                            }
                            match checked_mul(fraction, e.facevalue) {
                                None => zero_d,
                                Some(clean) => match checked_add(clean, e.accint) {
                                    None => zero_d,
                                    Some(p) => {
                                        proof {
                                            if mid_price_is_exact(e) {
                                                lemma_mid_dirty_price_arith(
                                                    e.low.val() + e.high.val(),
                                                    mid.val(),
                                                    fraction.val(),
                                                    e.facevalue.val(),
                                                    clean.val(),
                                                    e.accint.val(),
                                                    p.val(),
                                                    pow10(28),
                                                );
                                            }
                                        }
                                        p
                                    },
                                },
                            }
                        },
                    }
                },
            }
        },
    }
}

/// The arithmetic of the middle dirty price, step by step.
proof fn lemma_mid_dirty_price_arith(sum: int, mid: int, fraction: int, fv: int, clean: int, acc: int, p: int, big: int)
    requires
        big > 0,
        mid * (2 * big) == sum * big,
        fraction * (100 * big) == mid * big,
        clean * big == fraction * fv,
        p == clean + acc,
    ensures
        p * (200 * big) == sum * fv + 200 * big * acc,
{
    assert(mid * 2 == sum) by (nonlinear_arith)
        requires
            big > 0,
            mid * (2 * big) == sum * big,
    ;
    assert(fraction * 100 == mid) by (nonlinear_arith)
        requires
            big > 0,
            fraction * (100 * big) == mid * big,
    ;
    assert(p * (200 * big) == sum * fv + 200 * big * acc) by (nonlinear_arith)
        requires
            mid * 2 == sum,
            fraction * 100 == mid,
            clean * big == fraction * fv,
            p == clean + acc,
    ;
}

/// The result of a backtest.
pub struct BacktestResult {
    pub initial_capital: Dec,
    /// Value of the account at the end.
    pub final_value: Dec,
    pub profit_loss: Dec,
    /// Profit as a percentage of the initial capital (zero for no capital).
    pub return_percent: Dec,
    pub trades: Vec<TradeEvent>,
    pub payments: Vec<PaymentEvent>,
    pub portfolio_snapshots: Vec<PortfolioSnapshot>,
    pub start_date: Date,
    pub end_date: Date,
}

/// The profit and the return in percent of a final value over the initial
/// capital (`None` on decimal overflow).
pub open spec fn returns_spec(initial: Dec, final_value: Dec) -> Option<(Dec, Dec)> {
    match decimal_checked_sub(final_value, initial) {
        None => None,
        Some(pl) => if initial.val() == 0 {
            Some((pl, spec_from_i64(0)))
        } else {
            match decimal_checked_div(pl, initial) {
                None => None,
                Some(q) => match decimal_checked_mul(q, spec_from_i64(100)) {
                    None => None,
                    Some(pct) => Some((pl, pct)),
                },
            }
        },
    }
}

/// Whether the profit, its ratio to a non-zero initial capital and the
/// percentage are computed without rounding.
pub open spec fn return_is_exact(initial: Dec, final_value: Dec) -> bool {
    let pl = decimal_checked_sub(final_value, initial)->0;
    let q = decimal_checked_div(pl, initial)->0;
    &&& sum_is_exact(final_value, initial, -1)
    &&& initial.m() != 0 ==> {
        &&& abs(initial.m()) < two32()
        &&& exists|k: nat| #[trigger] quotient_fits_at(pl, initial, k)
        &&& exists|k: nat| #[trigger] product_fits_after(q, spec_from_i64(100), k)
    }
}

/// The arithmetic of the return in percent.
proof fn lemma_return_arith(pl: int, initial: int, q: int, pct: int, big: int)
    requires
        big > 0,
        q * initial == pl * big,
        pct * big == q * (100 * big),
    ensures
        pct * initial == 100 * pl * big,
{
    assert(pct == 100 * q) by (nonlinear_arith)
        requires
            big > 0,
            pct * big == q * (100 * big),
    ;
    assert(pct * initial == 100 * pl * big) by (nonlinear_arith)
        requires
            pct == 100 * q,
            q * initial == pl * big,
    ;
}

/// The profit and the return in percent: the profit is the final value less
/// the initial capital, and the return is `100 * profit / initial` (zero for
/// no capital).
pub fn profit_and_return(initial: Dec, final_value: Dec) -> (r: Option<(Dec, Dec)>)
    ensures
        r == returns_spec(initial, final_value),
        final_value == initial && crate::decimal::sum_is_exact(initial, initial, -1) ==> match r {
            Some((profit, percent)) => profit.val() == 0 && percent.val() == 0,
            None => false,
        },
        return_is_exact(initial, final_value) ==> match r {
            Some((profit, percent)) => profit.val() == final_value.val() - initial.val()
                && (initial.val() != 0 ==> percent.val() * initial.val() == 100 * profit.val() * pow10(28))
                && (initial.val() == 0 ==> percent.val() == 0),
            None => false,
        },
{
    let zero_d = from_i64(0);
    let hundred = from_i64(100);
    proof {
        lemma_from_i64_is_spec(zero_d, 0);
        lemma_from_i64_is_spec(hundred, 100);
    }
    match checked_sub(final_value, initial) {
        None => None,
        Some(pl) => if is_zero(initial) {
            proof {
                crate::decimal::lemma_sign_of_val(zero_d);
                crate::decimal::lemma_sign_of_val(initial);
            }
            Some((pl, zero_d))
        } else {
            proof {
                crate::decimal::lemma_sign_of_val(pl);
                crate::decimal::lemma_sign_of_val(initial);
                if return_is_exact(initial, final_value) {
                    let k = choose|k: nat| #[trigger] quotient_fits_at(pl, initial, k);
                    assert(quotient_fits_at(pl, initial, k));
                }
            }
            match checked_div(pl, initial) {
                None => None,
                Some(q) => {
                    proof {
                        if return_is_exact(initial, final_value) {
                            let k = choose|k: nat| #[trigger] product_fits_after(q, spec_from_i64(100), k);
                            assert(product_fits_after(q, hundred, k));
                        }
                    }
                    match checked_mul(q, hundred) {
                        None => None,
                        Some(pct) => {
                            proof {
                                crate::decimal::lemma_sign_of_val(pct);
                                if return_is_exact(initial, final_value) {
                                    lemma_pow10_positive(28);
                                    lemma_return_arith(pl.val(), initial.val(), q.val(), pct.val(), pow10(28));
                                }
                            }
                            Some((pl, pct))
                        },
                    }
                },
            }
        },
    }
}

impl Backtest {
    /// The prices of the day for the strategy.
    pub fn market_prices(&self) -> (r: IsinMap<Dec>)
        ensures
            r@ == prices_spec(
                self.bonds_info@,
                self.defaulted@,
                self.simulator.price_cache@,
                self.simulator.last_known_price@,
                self.simulator.current_date,
            ),
            forall|k: Seq<char>| has_key(self.bonds_info@, k) && !has_key(self.defaulted@, k)
                && (#[trigger] entry_for(self.simulator.price_cache@, self.simulator.last_known_price@, self.simulator.current_date, k)
                    matches Some(e) && e.volume.val() > 0 && mid_price_is_exact(e))
                ==> (lookup(r@, k) matches Some(p) && is_mid_dirty_price(
                    p,
                    entry_for(self.simulator.price_cache@, self.simulator.last_known_price@, self.simulator.current_date, k)->0,
                )),
    {
        let date = self.simulator.current_date;
        let ghost infos = self.bonds_info@;
        let ghost pc = self.simulator.price_cache@;
        let ghost latest = self.simulator.last_known_price@;
        let mut out: IsinMap<Dec> = KeyedMap::new();
        let n = self.bonds_info.len();
        let mut i: usize = 0;
        while i < n
            invariant
                n == infos.len(),
                infos == self.bonds_info@,
                keys_distinct(infos),
                pc == self.simulator.price_cache@,
                latest == self.simulator.last_known_price@,
                i <= n,
                date == self.simulator.current_date,
                out@ == prices_spec(
                    infos.take(i as int),
                    self.defaulted@,
                    self.simulator.price_cache@,
                    self.simulator.last_known_price@,
                    date,
                ),
                forall|j: int| 0 <= j < i && !has_key(self.defaulted@, infos[j].0)
                    && (#[trigger] entry_for(pc, latest, date, infos[j].0) matches Some(e) && e.volume.val() > 0
                        && mid_price_is_exact(e))
                    ==> is_mid_dirty_price(mid_price_rubles(entry_for(pc, latest, date, infos[j].0)->0), entry_for(pc, latest, date, infos[j].0)->0),
            decreases n - i,
        {
            assert(infos.take(i + 1).drop_last() =~= infos.take(i as int));
            assert(infos.take(i + 1).last() == infos[i as int]);
            let isin = self.bonds_info.key_at(i);
            if !self.defaulted.contains_key(isin) {
                let entry = match self.simulator.price_cache.get(&(date, isin.clone())) {
                    Some(e) => Some(e),
                    None => self.simulator.last_known_price.get(isin),
                };
                if let Some(e) = entry {
                    if is_positive(e.volume) {
                        out.insert(isin.clone(), mid_price(e));
                    }
                }
            }
            i = i + 1;
        }
        assert(infos.take(n as int) =~= infos);
        assert forall|k: Seq<char>| has_key(infos, k) && !has_key(self.defaulted@, k)
            && (#[trigger] entry_for(pc, latest, date, k) matches Some(e) && e.volume.val() > 0 && mid_price_is_exact(e))
            implies (lookup(out@, k) matches Some(p) && is_mid_dirty_price(p, entry_for(pc, latest, date, k)->0)) by {
            let j = choose|j: int| 0 <= j < infos.len() && infos[j].0 == k;
            law_strategy_price_is_dirty_mid_price(infos, self.defaulted@, pc, latest, date, k);
            assert(entry_for(pc, latest, date, infos[j].0) == entry_for(pc, latest, date, k));
        }
        out
    }

    /// The traded volumes of the day for the strategy.
    pub fn market_volumes(&self) -> (r: IsinMap<i64>)
        ensures
            r@ == volumes_spec(
                self.bonds_info@,
                self.defaulted@,
                self.simulator.price_cache@,
                self.simulator.last_known_price@,
                self.simulator.current_date,
            ),
    {
        let date = self.simulator.current_date;
        let ghost infos = self.bonds_info@;
        let mut out: IsinMap<i64> = KeyedMap::new();
        let n = self.bonds_info.len();
        let mut i: usize = 0;
        while i < n
            invariant
                n == infos.len(),
                infos == self.bonds_info@,
                i <= n,
                date == self.simulator.current_date,
                out@ == volumes_spec(
                    infos.take(i as int),
                    self.defaulted@,
                    self.simulator.price_cache@,
                    self.simulator.last_known_price@,
                    date,
                ),
            decreases n - i,
        {
            assert(infos.take(i + 1).drop_last() =~= infos.take(i as int));
            assert(infos.take(i + 1).last() == infos[i as int]);
            let isin = self.bonds_info.key_at(i);
            if !self.defaulted.contains_key(isin) {
                match self.simulator.price_cache.get(&(date, isin.clone())) {
                    Some(e) => {
                        out.insert(isin.clone(), saturating_to_i64(e.volume));
                    },
                    None => {
                        if self.simulator.last_known_price.contains_key(isin) {
                            out.insert(isin.clone(), 0);
                        }
                    },
                }
            }
            i = i + 1;
        }
        assert(infos.take(n as int) =~= infos);
        out
    }

    /// Executes the strategy's orders in turn at the middle price of today's
    /// candles; returns, for each order, why it was refused (`None` when it
    /// was executed).
    pub fn execute_orders(&mut self, orders: Vec<MarketOrder>) -> (r: Vec<Option<OrderError>>)
        requires
            old(self).simulator.wf(),
        ensures
            final(self).simulator.wf(),
            ({
                let f = orders_fold(
                    orders_view(orders@),
                    old(self).simulator.price_cache@,
                    old(self).simulator.current_date,
                    old(self).simulator.issue_volumes@,
                    account_view(old(self).simulator),
                );
                &&& account_view(final(self).simulator) == f.account
                &&& r@ == f.errors
                &&& trades_view(final(self).simulator.trades@) == trades_view(old(self).simulator.trades@) + f.trades
            }),
            final(self).simulator.trades@.len() == old(self).simulator.trades@.len() + executed_count(r@),
            final(self).simulator.trades@.take(old(self).simulator.trades@.len() as int) == old(self).simulator.trades@,
            final(self).simulator.payments == old(self).simulator.payments,
            final(self).simulator.current_date == old(self).simulator.current_date,
            final(self).simulator.price_cache == old(self).simulator.price_cache,
            final(self).simulator.facevalues == old(self).simulator.facevalues,
            final(self).simulator.issue_volumes == old(self).simulator.issue_volumes,
            final(self).simulator.last_known_price == old(self).simulator.last_known_price,
            final(self).bonds_info == old(self).bonds_info,
            final(self).bond_isins == old(self).bond_isins,
            final(self).payments == old(self).payments,
            final(self).defaulted == old(self).defaulted,
            final(self).snapshots == old(self).snapshots,
            final(self).initial_capital == old(self).initial_capital,
            final(self).start_date == old(self).start_date,
    {
        let ghost ov = orders_view(orders@);
        let ghost a0 = account_view(self.simulator);
        let mut errors: Vec<Option<OrderError>> = Vec::new();
        let n = orders.len();
        let mut i: usize = 0;
        while i < n
            invariant
                n == ov.len(),
                ov == orders_view(orders@),
                i <= n,
                self.simulator.wf(),
                ({
                    let f = orders_fold(
                        ov.take(i as int),
                        self.simulator.price_cache@,
                        self.simulator.current_date,
                        self.simulator.issue_volumes@,
                        a0,
                    );
                    &&& account_view(self.simulator) == f.account
                    &&& errors@ == f.errors
                    &&& trades_view(self.simulator.trades@) == trades_view(old(self).simulator.trades@) + f.trades
                }),
                self.simulator.trades@.len() == old(self).simulator.trades@.len() + executed_count(errors@),
                self.simulator.trades@.take(old(self).simulator.trades@.len() as int) == old(self).simulator.trades@,
                self.simulator.payments == old(self).simulator.payments,
                self.simulator.current_date == old(self).simulator.current_date,
                self.simulator.price_cache == old(self).simulator.price_cache,
                self.simulator.facevalues == old(self).simulator.facevalues,
                self.simulator.issue_volumes == old(self).simulator.issue_volumes,
                self.simulator.last_known_price == old(self).simulator.last_known_price,
                self.bonds_info == old(self).bonds_info,
                self.bond_isins == old(self).bond_isins,
                self.payments == old(self).payments,
                self.defaulted == old(self).defaulted,
                self.snapshots == old(self).snapshots,
                self.initial_capital == old(self).initial_capital,
                self.start_date == old(self).start_date,
            decreases n - i,
        {
            assert(ov.take(i + 1).drop_last() =~= ov.take(i as int));
            assert(ov.take(i + 1).last() == order_view(orders@[i as int]));
            let order = MarketOrder { isin: orders[i].isin.clone(), order_type: orders[i].order_type, count: orders[i].count };
            let ghost trades_before = self.simulator.trades@;
            let ghost errors_before = errors@;
            match self.simulator.execute_order(order, true) {
                Ok(t) => {
                    proof {
                        assert(trades_view(self.simulator.trades@) =~= trades_view(trades_before).push(trade_view(t)));
                        let ghost prev = orders_fold(
                            ov.take(i as int),
                            self.simulator.price_cache@,
                            self.simulator.current_date,
                            self.simulator.issue_volumes@,
                            a0,
                        ).trades;
                        assert((trades_view(old(self).simulator.trades@) + prev).push(trade_view(t))
                            =~= trades_view(old(self).simulator.trades@) + prev.push(trade_view(t)));
                    }
                    errors.push(None)
                },
                Err(e) => errors.push(Some(e)),
            }
            assert(errors@.drop_last() =~= errors_before);
            assert(self.simulator.trades@.take(old(self).simulator.trades@.len() as int) =~= old(self).simulator.trades@) by {
                assert(self.simulator.trades@.take(trades_before.len() as int) == trades_before);
            }

            i = i + 1;
        }
        assert(ov.take(n as int) =~= ov);
        errors
    }

    /// Ends the day: records the state of the account (when its value can be
    /// computed) and forgets the day's candles, which remain as the latest
    /// ones.
    pub fn end_day(&mut self)
        requires
            old(self).simulator.wf(),
        ensures
            final(self).simulator.wf(),
            final(self).simulator.price_cache@ == without_day(old(self).simulator.price_cache@, old(self).simulator.current_date),
            ({
                let s = old(self).simulator;
                let total = portfolio_value_spec(s, s.holdings@);
                if total is Some && decimal_checked_sub(total->0, s.portfolio.free_money) is Some {
                    &&& final(self).snapshots@.len() == old(self).snapshots@.len() + 1
                    &&& final(self).snapshots@.take(old(self).snapshots@.len() as int) == old(self).snapshots@
                    &&& final(self).snapshots@.last().date == s.current_date
                    &&& final(self).snapshots@.last().cash == s.portfolio.free_money
                    &&& final(self).snapshots@.last().positions@ == s.holdings@
                    &&& final(self).snapshots@.last().total_value == total->0
                    &&& Some(final(self).snapshots@.last().portfolio_value) == decimal_checked_sub(
                        total->0,
                        s.portfolio.free_money,
                    )
                } else {
                    final(self).snapshots == old(self).snapshots
                }
            }),
            final(self).simulator.portfolio == old(self).simulator.portfolio,
            final(self).simulator.holdings == old(self).simulator.holdings,
            final(self).simulator.trades == old(self).simulator.trades,
            final(self).simulator.payments == old(self).simulator.payments,
            final(self).simulator.current_date == old(self).simulator.current_date,
            final(self).simulator.facevalues == old(self).simulator.facevalues,
            final(self).simulator.issue_volumes == old(self).simulator.issue_volumes,
            final(self).simulator.last_known_price == old(self).simulator.last_known_price,
            final(self).bonds_info == old(self).bonds_info,
            final(self).bond_isins == old(self).bond_isins,
            final(self).payments == old(self).payments,
            final(self).defaulted == old(self).defaulted,
            final(self).initial_capital == old(self).initial_capital,
            final(self).start_date == old(self).start_date,
    {
        if let Some(snapshot) = self.simulator.get_portfolio_snapshot() {
            self.snapshots.push(snapshot);
            assert(self.snapshots@.take(old(self).snapshots@.len() as int) =~= old(self).snapshots@);
        }
        let date = self.simulator.current_date;
        self.simulator.price_cache.drop_day(date);
    }

    /// Starts a day of the backtest: moves to `date` and caches its candles,
    /// then writes off the day's defaults, redeems the day's offers and
    /// credits the day's payments, in that order; the prices and volumes
    /// handed to the strategy are taken after these events.
    pub fn begin_day(&mut self, date: Date, candles: &Vec<CandleRecord>) -> (r: MarketDay)
        requires
            old(self).simulator.wf(),
        ensures
            final(self).simulator.wf(),
            day_state(*final(self)) == begin_day_spec(
                day_state(*old(self)),
                date,
                candles@,
                old(self).bonds_info@,
                entries_view_str(old(self).bond_isins@),
                isin_payments_view(old(self).payments@),
            ),
            r.prices@ == day_prices(day_state(*final(self)), old(self).bonds_info@),
            r.volumes@ == day_volumes(day_state(*final(self)), old(self).bonds_info@),
            final(self).simulator.current_date == date,
            ({
                let c = cache_fold(cache_view(old(self).simulator), candles@, entries_view_str(old(self).bond_isins@), date);
                let d = defaults_of_day(old(self).bonds_info@, c.prices, date, old(self).simulator.holdings@, old(self).defaulted@);
                let a0 = AccountView { free: old(self).simulator.portfolio.free_money, holdings: d.holdings };
                let a = offers_fold(old(self).bonds_info@, date, a0, c.facevalues);
                let flat = isin_payments_view(old(self).payments@);
                &&& cache_view(final(self).simulator) == c
                &&& final(self).defaulted@ == d.defaulted
                &&& final(self).simulator.holdings@ == a.holdings
                &&& final(self).simulator.portfolio.free_money == payments_fold(flat, date, d.defaulted, a.holdings, c.facevalues, a.free)
                &&& payments_view(final(self).simulator.payments@) == payments_view(old(self).simulator.payments@) + d.events
                    + offer_events(old(self).bonds_info@, date, a0, c.facevalues)
                    + payment_events(flat, date, d.defaulted, a.holdings, c.facevalues, a.free)
                &&& r.prices@ == prices_spec(old(self).bonds_info@, d.defaulted, c.prices, c.latest, date)
                &&& r.volumes@ == volumes_spec(old(self).bonds_info@, d.defaulted, c.prices, c.latest, date)
            }),
            final(self).simulator.trades == old(self).simulator.trades,
            final(self).simulator.issue_volumes == old(self).simulator.issue_volumes,
            final(self).bonds_info == old(self).bonds_info,
            final(self).bond_isins == old(self).bond_isins,
            final(self).payments == old(self).payments,
            final(self).snapshots == old(self).snapshots,
            final(self).initial_capital == old(self).initial_capital,
            final(self).start_date == old(self).start_date,
    {
        let ghost snaps0 = self.snapshots@;
        self.cache_day(date, candles);
        self.apply_defaults();
        self.apply_offers();
        self.apply_payments();
        assert(snapshots_view(self.snapshots@) =~= snapshots_view(snaps0));
        let prices = self.market_prices();
        let volumes = self.market_volumes();
        MarketDay { prices, volumes }
    }

    /// Ends a day of trading: executes the strategy's orders in turn at the
    /// middle price of today's candles, then records the state of the
    /// account as the orders left it (whenever its value can be computed) and
    /// forgets the day's candles.  Returns, for each order, why it was
    /// refused (`None` when it was executed).
    pub fn finish_day(&mut self, orders: Vec<MarketOrder>) -> (r: Vec<Option<OrderError>>)
        requires
            old(self).simulator.wf(),
        ensures
            final(self).simulator.wf(),
            day_state(*final(self)) == finish_day_spec(day_state(*old(self)), orders_view(orders@), old(self).simulator.issue_volumes@),
            ({
                let f = orders_fold(
                    orders_view(orders@),
                    old(self).simulator.price_cache@,
                    old(self).simulator.current_date,
                    old(self).simulator.issue_volumes@,
                    account_view(old(self).simulator),
                );
                let total = account_value(
                    f.account.free,
                    f.account.holdings,
                    old(self).simulator.price_cache@,
                    old(self).simulator.last_known_price@,
                    old(self).simulator.current_date,
                );
                &&& account_view(final(self).simulator) == f.account
                &&& r@ == f.errors
                &&& trades_view(final(self).simulator.trades@) == trades_view(old(self).simulator.trades@) + f.trades
                &&& (if total is Some && decimal_checked_sub(total->0, f.account.free) is Some {
                    &&& final(self).snapshots@.len() == old(self).snapshots@.len() + 1
                    &&& final(self).snapshots@.take(old(self).snapshots@.len() as int) == old(self).snapshots@
                    &&& final(self).snapshots@.last().date == old(self).simulator.current_date
                    &&& final(self).snapshots@.last().cash == f.account.free
                    &&& final(self).snapshots@.last().positions@ == f.account.holdings
                    &&& final(self).snapshots@.last().total_value == total->0
                    &&& Some(final(self).snapshots@.last().portfolio_value) == decimal_checked_sub(total->0, f.account.free)
                } else {
                    final(self).snapshots == old(self).snapshots
                })
            }),
            final(self).simulator.price_cache@ == without_day(old(self).simulator.price_cache@, old(self).simulator.current_date),
            final(self).simulator.payments == old(self).simulator.payments,
            final(self).simulator.current_date == old(self).simulator.current_date,
            final(self).simulator.facevalues == old(self).simulator.facevalues,
            final(self).simulator.issue_volumes == old(self).simulator.issue_volumes,
            final(self).simulator.last_known_price == old(self).simulator.last_known_price,
            final(self).bonds_info == old(self).bonds_info,
            final(self).bond_isins == old(self).bond_isins,
            final(self).payments == old(self).payments,
            final(self).defaulted == old(self).defaulted,
            final(self).initial_capital == old(self).initial_capital,
            final(self).start_date == old(self).start_date,
    {
        let ghost snaps0 = self.snapshots@;
        let errors = self.execute_orders(orders);
        proof {
            lemma_account_value(self.simulator, self.simulator.holdings@);
        }
        self.end_day();
        proof {
            if self.snapshots@.len() == snaps0.len() + 1 {
                assert(snapshots_view(self.snapshots@) =~= snapshots_view(snaps0).push(snapshot_view(self.snapshots@.last())));
            } else {
                assert(snapshots_view(self.snapshots@) =~= snapshots_view(snaps0));
            }
        }
        errors
    }

    /// The yields of the bonds priced today, in the order of the bonds.
    fn day_yields<Y: BondYields>(&self, yields: &Y, today: Date, prices: &IsinMap<Dec>) -> (r: IsinMap<Dec>)
        ensures
            forall|k: Seq<char>| #[trigger] has_key(r@, k) <==> (has_key(self.bonds_info@, k) && has_key(prices@, k)),
    {
        let ghost infos = self.bonds_info@;
        let mut out: IsinMap<Dec> = KeyedMap::new();
        let n = self.bonds_info.len();
        let mut i: usize = 0;
        while i < n
            invariant
                n == infos.len(),
                infos == self.bonds_info@,
                i <= n,
                forall|k: Seq<char>| #[trigger] has_key(out@, k) <==> (has_key(infos.take(i as int), k) && has_key(prices@, k)),
            decreases n - i,
        {
            let isin = self.bonds_info.key_at(i);
            let ghost before = out@;
            assert forall|k: Seq<char>| #[trigger] has_key(infos.take(i + 1), k) <==> (has_key(infos.take(i as int), k)
                || k == infos[i as int].0) by {
                let t1 = infos.take(i + 1);
                let t0 = infos.take(i as int);
                if k == infos[i as int].0 {
                    assert(t1[i as int].0 == k);
                }
                if has_key(t1, k) {
                    let j = choose|j: int| 0 <= j < t1.len() && #[trigger] t1[j].0 == k;
                    if j < i {
                        assert(t0[j].0 == k);
                    }
                }
                if has_key(t0, k) {
                    let j = choose|j: int| 0 <= j < t0.len() && #[trigger] t0[j].0 == k;
                    assert(t1[j].0 == k);
                }
            }
            let ghost priced = has_key(prices@, isin@);
            match prices.get(isin) {
                Some(price) => {
                    let y = yields.bond_yield(price, today, self.bonds_info.value_ref(i));
                    out.insert(isin.clone(), y);
                    proof {
                        crate::keyed_map::lemma_store(before, isin@, y);
                        assert(priced);
                    }
                },
                None => {
                    assert(!priced);
                },
            }
            assert forall|k: Seq<char>| #[trigger] has_key(out@, k) <==> (has_key(infos.take(i + 1), k) && has_key(prices@, k)) by {
                assert(has_key(infos.take(i + 1), k) <==> (has_key(infos.take(i as int), k) || k == infos[i as int].0));
                assert(has_key(before, k) <==> (has_key(infos.take(i as int), k) && has_key(prices@, k)));
            }
            i = i + 1;
        }
        assert(infos.take(n as int) =~= infos);
        out
    }

    /// Runs the backtest over consecutive days from `start`, day `i` with the
    /// candles `days[i]`: each day begins (candles, defaults, offers,
    /// payments), the strategy decides on the day's prices, volumes and
    /// yields, and the day finishes (orders, snapshot).  At most one snapshot
    /// is recorded per day, in the order of the days.  On an account that
    /// holds no bond, a run in which no trade is made leaves the cash as it
    /// was, credits nothing, and records every day (when its value can be
    /// computed) a snapshot whose cash and total value are that cash.
    /// `false` when the strategy's decision overflows; the run stops that day.
    pub fn run_days<S: Strategy, Y: BondYields>(
        &mut self,
        strategy: &S,
        yields: &Y,
        start: Date,
        days: &Vec<Vec<CandleRecord>>,
    ) -> (r: bool)
        requires
            old(self).simulator.wf(),
            start + days@.len() <= i32::MAX,
        ensures
            final(self).simulator.wf(),
            final(self).snapshots@.len() <= old(self).snapshots@.len() + days@.len(),
            final(self).snapshots@.take(old(self).snapshots@.len() as int) == old(self).snapshots@,
            forall|i: int| old(self).snapshots@.len() <= i < final(self).snapshots@.len()
                ==> start <= #[trigger] final(self).snapshots@[i].date < start + days@.len(),
            forall|i: int, j: int| old(self).snapshots@.len() <= i < j < final(self).snapshots@.len()
                ==> #[trigger] final(self).snapshots@[i].date < #[trigger] final(self).snapshots@[j].date,
            final(self).simulator.trades@.len() >= old(self).simulator.trades@.len(),
            days@.len() == 0 ==> r && *final(self) == *old(self),
            exists|ys: Seq<Seq<(Seq<char>, Dec)>>| #[trigger] run_spec(
                *strategy,
                day_state(*old(self)),
                start,
                days_view(days@),
                ys,
                old(self).bonds_info@,
                entries_view_str(old(self).bond_isins@),
                isin_payments_view(old(self).payments@),
                old(self).simulator.issue_volumes@,
            ) == (day_state(*final(self)), r),
            final(self).snapshots@.len() == old(self).snapshots@.len() + days@.len() ==> forall|i: int|
                0 <= i < days@.len() ==> #[trigger] final(self).snapshots@[old(self).snapshots@.len() + i].date == start + i,
            final(self).bonds_info == old(self).bonds_info,
            final(self).bond_isins == old(self).bond_isins,
            final(self).payments == old(self).payments,
            final(self).simulator.issue_volumes == old(self).simulator.issue_volumes,
            final(self).initial_capital == old(self).initial_capital,
            final(self).start_date == old(self).start_date,
            holds_nothing(old(self).simulator.holdings@) && final(self).simulator.trades@.len() == old(self).simulator.trades@.len()
                ==> {
                &&& final(self).simulator.portfolio.free_money == old(self).simulator.portfolio.free_money
                &&& holds_nothing(final(self).simulator.holdings@)
                &&& final(self).simulator.payments@.len() == old(self).simulator.payments@.len()
                &&& forall|i: int| old(self).snapshots@.len() <= i < final(self).snapshots@.len() ==> {
                    &&& (#[trigger] final(self).snapshots@[i]).cash == old(self).simulator.portfolio.free_money
                    &&& final(self).snapshots@[i].total_value == old(self).simulator.portfolio.free_money
                    &&& holds_nothing(final(self).snapshots@[i].positions@)
                }
                &&& (r && decimal_checked_sub(old(self).simulator.portfolio.free_money, old(self).simulator.portfolio.free_money) is Some
                    ==> final(self).snapshots@.len() == old(self).snapshots@.len() + days@.len())
            },
    {
        let ghost s0 = self.snapshots@.len();
        let ghost snaps0 = self.snapshots@;
        let ghost t0 = self.simulator.trades@.len();
        let ghost p0 = self.simulator.payments@.len();
        let ghost free0 = self.simulator.portfolio.free_money;
        let ghost idle0 = holds_nothing(self.simulator.holdings@);
        let ghost st0 = day_state(*self);
        let ghost dv = days_view(days@);
        let ghost infos0 = self.bonds_info@;
        let ghost names = entries_view_str(self.bond_isins@);
        let ghost flat0 = isin_payments_view(self.payments@);
        let ghost iv0 = self.simulator.issue_volumes@;
        let ghost mut ys_acc: Seq<Seq<(Seq<char>, Dec)>> = Seq::empty();
        let n = days.len();
        let mut i: usize = 0;
        while i < n
            invariant
                n == days@.len(),
                i <= n,
                dv == days_view(days@),
                st0 == day_state(*old(self)),
                infos0 == old(self).bonds_info@,
                names == entries_view_str(old(self).bond_isins@),
                flat0 == isin_payments_view(old(self).payments@),
                iv0 == old(self).simulator.issue_volumes@,
                self.bonds_info == old(self).bonds_info,
                self.bond_isins == old(self).bond_isins,
                self.payments == old(self).payments,
                self.simulator.issue_volumes == old(self).simulator.issue_volumes,
                self.initial_capital == old(self).initial_capital,
                self.start_date == old(self).start_date,
                i == 0 ==> *self == *old(self),
                ys_acc.len() == i,
                run_spec(*strategy, st0, start, dv.take(i as int), ys_acc, infos0, names, flat0, iv0) == (day_state(*self), true),
                start + n <= i32::MAX,
                s0 == old(self).snapshots@.len(),
                snaps0 == old(self).snapshots@,
                t0 == old(self).simulator.trades@.len(),
                p0 == old(self).simulator.payments@.len(),
                free0 == old(self).simulator.portfolio.free_money,
                idle0 == holds_nothing(old(self).simulator.holdings@),
                self.simulator.wf(),
                s0 <= self.snapshots@.len() <= s0 + i,
                self.snapshots@.take(s0 as int) == snaps0,
                forall|k: int| s0 <= k < self.snapshots@.len() ==> start <= #[trigger] self.snapshots@[k].date < start + i,
                forall|k: int, l: int| s0 <= k < l < self.snapshots@.len()
                    ==> #[trigger] self.snapshots@[k].date < #[trigger] self.snapshots@[l].date,
                self.simulator.trades@.len() >= t0,
                idle0 && self.simulator.trades@.len() == t0 ==> {
                    &&& self.simulator.portfolio.free_money == free0
                    &&& holds_nothing(self.simulator.holdings@)
                    &&& self.simulator.payments@.len() == p0
                    &&& forall|k: int| s0 <= k < self.snapshots@.len() ==> {
                        &&& (#[trigger] self.snapshots@[k]).cash == free0
                        &&& self.snapshots@[k].total_value == free0
                        &&& holds_nothing(self.snapshots@[k].positions@)
                    }
                    &&& (decimal_checked_sub(free0, free0) is Some ==> self.snapshots@.len() == s0 + i)
                },
            decreases n - i,
        {
            let date: Date = (start as i64 + i as i64) as i32;
            assert(date == start + i);
            let ghost before = day_state(*self);
            let ghost h1 = self.simulator.holdings@;
            let ghost free1 = self.simulator.portfolio.free_money;
            let ghost def1 = self.defaulted@;
            let ghost c1 = cache_view(self.simulator);
            let ghost pays1 = self.simulator.payments@;
            let ghost infos = self.bonds_info@;
            let ghost flat = isin_payments_view(self.payments@);
            let ghost iv = entries_view_str(self.bond_isins@);
            let market = self.begin_day(date, &days[i]);
            proof {
                if idle0 && self.simulator.trades@.len() == t0 {
                    let c = cache_fold(c1, days@[i as int]@, iv, date);
                    law_idle_day(infos, c.prices, c.latest, date, h1, def1, c.facevalues, flat, free1, Seq::empty(), Seq::empty());
                    assert(payments_view(self.simulator.payments@).len() == payments_view(pays1).len());
                }
            }
            let ys = self.day_yields(yields, date, &market.prices);
            let portfolio = Portfolio {
                free_money: self.simulator.portfolio.free_money,
                bonds_count: self.simulator.portfolio.bonds_count.copy(),
            };
            let decided = strategy.decide_trades(date, &portfolio, &self.bonds_info, &market.prices, &market.volumes, &ys);
            let ghost began = day_state(*self);
            let ghost ys_next = ys_acc.push(ys@);
            proof {
                lemma_run_yields(*strategy, st0, start, dv.take(i as int), ys_acc, ys_next, infos0, names, flat0, iv0);
                assert(dv.take(i + 1).drop_last() =~= dv.take(i as int));
                assert(dv.take(i + 1)[i as int] == days@[i as int]@);
                assert(portfolio_view(portfolio) == PortfolioView { free_money: began.account.free, bonds_count: began.account.holdings });
            }
            let orders = match decided {
                None => {
                    proof {
                        assert(run_spec(*strategy, st0, start, dv.take(i + 1), ys_next, infos0, names, flat0, iv0) == (began, false));
                        lemma_run_stops(*strategy, st0, start, dv, ys_next, infos0, names, flat0, iv0, i + 1);
                    }
                    return false;
                },
                Some(o) => o,
            };
            let ghost snaps1 = self.snapshots@;
            let ghost mid = self.simulator;
            let ghost ov = orders_view(orders@);
            self.finish_day(orders);
            proof {
                assert(self.snapshots@.len() == snaps1.len() || self.snapshots@.len() == snaps1.len() + 1);
                assert forall|k: int| 0 <= k < snaps1.len() implies self.snapshots@[k] == snaps1[k] by {
                    if self.snapshots@.len() == snaps1.len() + 1 {
                        assert(self.snapshots@.take(snaps1.len() as int)[k] == snaps1[k]);
                    }
                }
                assert(self.simulator.current_date == date);
                assert(self.snapshots@.len() == snaps1.len() + 1 ==> self.snapshots@[snaps1.len() as int].date == date);
                assert forall|k: int| s0 <= k < self.snapshots@.len() implies start <= #[trigger] self.snapshots@[k].date < start + i + 1 by {
                    if k < snaps1.len() {
                        assert(self.snapshots@[k] == snaps1[k]);
                    }
                }
                assert forall|k: int, l: int| s0 <= k < l < self.snapshots@.len()
                    implies #[trigger] self.snapshots@[k].date < #[trigger] self.snapshots@[l].date by {
                    assert(self.snapshots@[k] == snaps1[k]);
                    if l < snaps1.len() {
                        assert(self.snapshots@[l] == snaps1[l]);
                    }
                }
                assert(self.snapshots@.take(s0 as int) =~= snaps0) by {
                    assert forall|k: int| 0 <= k < s0 implies self.snapshots@.take(s0 as int)[k] == snaps0[k] by {
                        assert(snaps1.take(s0 as int)[k] == snaps0[k]);
                    }
                }
                assert(trades_view(self.simulator.trades@).len() == self.simulator.trades@.len());
                assert(trades_view(mid.trades@).len() == mid.trades@.len());
                assert(mid.trades@.len() <= self.simulator.trades@.len());
                if idle0 && self.simulator.trades@.len() == t0 {
                    assert(mid.portfolio.free_money == free0);
                    assert(holds_nothing(mid.holdings@));
                    assert(account_view(mid) == AccountView { free: mid.portfolio.free_money, holdings: mid.holdings@ });
                    law_idle_day(
                        infos,
                        mid.price_cache@,
                        mid.last_known_price@,
                        date,
                        mid.holdings@,
                        self.defaulted@,
                        mid.facevalues@,
                        flat,
                        mid.portfolio.free_money,
                        ov,
                        mid.issue_volumes@,
                    );
                    let f = orders_fold(ov, mid.price_cache@, mid.current_date, mid.issue_volumes@, account_view(mid));
                    assert(f.trades.len() == 0);
                    assert(f.account == account_view(mid));
                    assert(account_value(f.account.free, f.account.holdings, mid.price_cache@, mid.last_known_price@, mid.current_date)
                        == Some(free0));
                    assert(self.simulator.portfolio.free_money == free0);
                    assert(holds_nothing(self.simulator.holdings@));
                    assert forall|k: int| s0 <= k < self.snapshots@.len() implies {
                        &&& (#[trigger] self.snapshots@[k]).cash == free0
                        &&& self.snapshots@[k].total_value == free0
                        &&& holds_nothing(self.snapshots@[k].positions@)
                    } by {
                        if k < snaps1.len() {
                            assert(self.snapshots@[k] == snaps1[k]);
                        }
                    }
                }
            }
            proof {
                ys_acc = ys_next;
            }
            i = i + 1;
        }
        proof {
            assert(dv.take(n as int) =~= dv);
            if self.snapshots@.len() == s0 + n {
                lemma_one_per_day(self.snapshots@, s0 as int, start as int, n as int);
            }
        }
        true
    }

    /// Runs a whole backtest: the days from the start date, day `k` with the
    /// candles `days[k]` (see `run_days`), then the result at `end_date`.
    /// `None` when the strategy's decision or the final valuation overflows.
    /// A backtest that starts with its capital as cash and no bond, and makes
    /// no trade, ends with its capital: no payment is recorded, every day has
    /// one snapshot (dated in order) whose cash and total value are the
    /// capital with no position, and profit and return are zero wherever the
    /// capital minus itself is computed exactly.
    pub fn run_backtest<S: Strategy, Y: BondYields>(
        self,
        strategy: &S,
        yields: &Y,
        days: &Vec<Vec<CandleRecord>>,
        end_date: Date,
    ) -> (r: Option<BacktestResult>)
        requires
            self.simulator.wf(),
            self.start_date + days@.len() <= i32::MAX,
        ensures
            exists|ys: Seq<Seq<(Seq<char>, Dec)>>| {
                let run = #[trigger] run_spec(
                    *strategy,
                    day_state(self),
                    self.start_date,
                    days_view(days@),
                    ys,
                    self.bonds_info@,
                    entries_view_str(self.bond_isins@),
                    isin_payments_view(self.payments@),
                    self.simulator.issue_volumes@,
                );
                let st = run.0;
                let total = account_value(st.account.free, st.account.holdings, st.cache.prices, st.cache.latest, st.date);
                match r {
                    None => !run.1 || total is None || returns_spec(self.initial_capital, total->0) is None,
                    Some(res) => {
                        &&& run.1
                        &&& total is Some
                        &&& res.final_value == total->0
                        &&& returns_spec(self.initial_capital, total->0) == Some((res.profit_loss, res.return_percent))
                        &&& res.initial_capital == self.initial_capital
                        &&& trades_view(res.trades@) == st.trades
                        &&& payments_view(res.payments@) == st.payments
                        &&& snapshots_view(res.portfolio_snapshots@) == st.snapshots
                        &&& res.start_date == self.start_date
                        &&& res.end_date == end_date
                    },
                }
            },
            ({
                let ic = self.initial_capital;
                let idle = holds_nothing(self.simulator.holdings@) && self.simulator.trades@.len() == 0
                    && self.simulator.payments@.len() == 0 && self.snapshots@.len() == 0
                    && self.simulator.portfolio.free_money == ic;
                idle && r is Some && r->0.trades@.len() == 0 ==> {
                    let res = r->0;
                    &&& res.final_value == ic
                    &&& res.payments@.len() == 0
                    &&& res.portfolio_snapshots@.len() == days@.len()
                    &&& forall|i: int| 0 <= i < days@.len() ==> {
                        &&& (#[trigger] res.portfolio_snapshots@[i]).date == self.start_date + i
                        &&& res.portfolio_snapshots@[i].cash == ic
                        &&& res.portfolio_snapshots@[i].total_value == ic
                        &&& holds_nothing(res.portfolio_snapshots@[i].positions@)
                    }
                    &&& (crate::decimal::sum_is_exact(ic, ic, -1) ==> res.profit_loss.val() == 0 && res.return_percent.val() == 0)
                }
            }),
    {
        let ghost b0 = self;
        let mut bt = self;
        let start = bt.start_date;
        let ok = bt.run_days(strategy, yields, start, days);
        let ghost ys = choose|ys: Seq<Seq<(Seq<char>, Dec)>>| run_spec(
            *strategy,
            day_state(b0),
            start,
            days_view(days@),
            ys,
            b0.bonds_info@,
            entries_view_str(b0.bond_isins@),
            isin_payments_view(b0.payments@),
            b0.simulator.issue_volumes@,
        ) == (day_state(bt), ok);
        proof {
            lemma_account_value(bt.simulator, bt.simulator.holdings@);
            if holds_nothing(bt.simulator.holdings@) {
                lemma_idle_account_value(
                    bt.simulator.portfolio.free_money,
                    bt.simulator.holdings@,
                    bt.simulator.price_cache@,
                    bt.simulator.last_known_price@,
                    bt.simulator.current_date,
                );
            }
        }
        if !ok {
            return None;
        }
        let ghost bt1 = bt;
        let r = bt.finish(end_date);
        proof {
            if r is Some {
                let res = r->0;
                if holds_nothing(b0.simulator.holdings@) && b0.simulator.trades@.len() == 0 && b0.simulator.payments@.len() == 0
                    && b0.snapshots@.len() == 0 && b0.simulator.portfolio.free_money == b0.initial_capital
                    && res.trades@.len() == 0 {
                    assert(bt1.simulator.trades@.len() == 0);
                    assert(bt1.simulator.portfolio.free_money == b0.initial_capital);
                    assert(portfolio_value_spec(bt1.simulator, bt1.simulator.holdings@) == Some(b0.initial_capital));
                    assert(decimal_checked_sub(b0.initial_capital, b0.initial_capital) is Some);
                    assert(bt1.snapshots@.len() == days@.len());
                    assert(res.portfolio_snapshots@ == bt1.snapshots@);
                    assert(res.payments@.len() == 0);
                    assert forall|i: int| 0 <= i < days@.len() implies {
                        &&& (#[trigger] res.portfolio_snapshots@[i]).date == b0.start_date + i
                        &&& res.portfolio_snapshots@[i].cash == b0.initial_capital
                        &&& res.portfolio_snapshots@[i].total_value == b0.initial_capital
                        &&& holds_nothing(res.portfolio_snapshots@[i].positions@)
                    } by {
                        assert(bt1.snapshots@[0 + i].date == start + i);
                        assert(bt1.snapshots@[i].cash == b0.initial_capital);
                    }
                }
                assert(trades_view(res.trades@) == trades_view(bt1.simulator.trades@));
                assert(payments_view(res.payments@) == payments_view(bt1.simulator.payments@));
                assert(snapshots_view(res.portfolio_snapshots@) == snapshots_view(bt1.snapshots@));
                assert(res.trades@.len() == trades_view(res.trades@).len());
            }
        }
        r
    }

    /// The result: the final value of the account, the profit over the
    /// initial capital and the return in percent, with the trades, payments
    /// and snapshots; `None` on decimal overflow.
    pub fn finish(self, end_date: Date) -> (r: Option<BacktestResult>)
        ensures
            ({
                let total = portfolio_value_spec(self.simulator, self.simulator.holdings@);
                match r {
                    None => total is None || returns_spec(self.initial_capital, total->0) is None,
                    Some(res) => {
                        &&& total is Some
                        &&& res.final_value == total->0
                        &&& returns_spec(self.initial_capital, total->0) == Some((res.profit_loss, res.return_percent))
                        &&& res.initial_capital == self.initial_capital
                        &&& res.trades == self.simulator.trades
                        &&& res.payments == self.simulator.payments
                        &&& res.portfolio_snapshots == self.snapshots
                        &&& res.start_date == self.start_date
                        &&& res.end_date == end_date
                    },
                }
            }),
            ({
                let total = portfolio_value_spec(self.simulator, self.simulator.holdings@);
                total == Some(self.initial_capital) && crate::decimal::sum_is_exact(self.initial_capital, self.initial_capital, -1)
                    ==> match r {
                    Some(res) => res.profit_loss.val() == 0 && res.return_percent.val() == 0,
                    None => false,
                }
            }),
    {
        let final_value = match self.simulator.get_portfolio_value() {
            None => return None,
            Some(v) => v,
        };
        let (profit_loss, return_percent) = match profit_and_return(self.initial_capital, final_value) {
            None => return None,
            Some(pr) => pr,
        };
        Some(BacktestResult {
            initial_capital: self.initial_capital,
            final_value,
            profit_loss,
            return_percent,
            trades: self.simulator.trades,
            payments: self.simulator.payments,
            portfolio_snapshots: self.snapshots,
            start_date: self.start_date,
            end_date,
        })
    }
}

} // verus!
