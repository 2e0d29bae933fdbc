//! Heat dissipation toward ambient and the cooling attachments that speed it.

use vstd::prelude::*;
use crate::components::{ThermalState, AMBIENT};
use crate::world::{World, EntityRecord, record_ok};

verus! {

/// Active or passive cooling of a body: power in watts, target in
/// microkelvin, efficiency in parts per million.
#[derive(Clone, Copy, Debug, PartialEq, Eq, Structural)]
pub struct CoolingSystem {
    pub cooling_power: u64,
    pub target_temperature: u128,
    pub efficiency: u32,
}

impl CoolingSystem {
    pub fn active_cooling(cooling_power_watts: u64) -> (r: CoolingSystem)
        ensures
            r == (CoolingSystem {
                cooling_power: cooling_power_watts,
                target_temperature: AMBIENT,
                efficiency: 950_000,
            }),
    {
        CoolingSystem {
            cooling_power: cooling_power_watts,
            target_temperature: AMBIENT,
            efficiency: 950_000,
        }
    }

    pub fn passive_cooling() -> (r: CoolingSystem)
        ensures
            r == (CoolingSystem { cooling_power: 100, target_temperature: AMBIENT, efficiency: 500_000 }),
    {
        CoolingSystem { cooling_power: 100, target_temperature: AMBIENT, efficiency: 500_000 }
    }
}

impl Default for CoolingSystem {
    fn default() -> (r: CoolingSystem)
        ensures
            r == (CoolingSystem {
                cooling_power: 1000,
                target_temperature: AMBIENT,
                efficiency: 950_000,
            }),
    {
        CoolingSystem::active_cooling(1000)
    }
}

/// `a / b` rounded up, for `a >= 0` and `b > 0`.
pub open spec fn ceil_div(a: int, b: int) -> int {
    (a + b - 1) / b
}

pub open spec fn min_spec(a: int, b: int) -> int {
    if a <= b {
        a
    } else {
        b
    }
}

/// Divisor that turns microkelvin x microjoules-per-kelvin x picoseconds
/// into nanojoules for natural convection, which sheds 1 % of the excess
/// heat per second.
pub const CONVECTION_DIVISOR: u128 = 100_000_000_000_000_000;

/// Divisor that turns microkelvin x parts-per-million x microjoules-per-kelvin
/// into nanojoules for the proportional limit of a cooling attachment
/// (a tenth of the excess heat, scaled by efficiency).
pub const PROPORTIONAL_DIVISOR: u128 = 10_000_000_000;

/// Divisor that turns watts x picoseconds into nanojoules.
pub const POWER_DIVISOR: u128 = 1000;

/// Heat removed in one tick of `dt` picoseconds from a body above ambient,
/// in nanojoules, rounded up so that a body above ambient always sheds heat.
pub open spec fn removal(s: ThermalState, cooling: Option<CoolingSystem>, dt: int) -> int {
    let delta = s.temperature - AMBIENT;
    match cooling {
        Some(c) => min_spec(
            ceil_div(c.cooling_power * dt, POWER_DIVISOR as int),
            ceil_div(delta * c.efficiency * s.heat_capacity, PROPORTIONAL_DIVISOR as int),
        ),
        None => ceil_div(delta * s.heat_capacity * dt, CONVECTION_DIVISOR as int),
    }
}

pub open spec fn max_spec(a: int, b: int) -> int {
    if a >= b {
        a
    } else {
        b
    }
}

/// Temperature of a body at ambient plus what its heat energy accounts for,
/// never below ambient.
pub open spec fn settled_temperature(heat_energy: int, capacity: int) -> int {
    AMBIENT + max_spec(0, heat_energy * 1000 / capacity)
}

/// One tick of dissipation. A body at or below ambient is left alone; one
/// above sheds `removal` nanojoules (the stored energy stops at the
/// smallest `i64`) and its temperature is recomputed from the heat left.
pub open spec fn dissipate_spec(s: ThermalState, cooling: Option<CoolingSystem>, dt: int) -> ThermalState {
    if s.temperature <= AMBIENT {
        s
    } else {
        let e = max_spec(s.heat_energy - removal(s, cooling, dt), i64::MIN as int);
        ThermalState {
            temperature: settled_temperature(e, s.heat_capacity as int) as u128,
            heat_energy: e as i64,
            heat_capacity: s.heat_capacity,
        }
    }
}

/// Whether the temperature is the one its heat energy accounts for.
pub open spec fn is_settled(s: ThermalState) -> bool {
    s.temperature == settled_temperature(s.heat_energy as int, s.heat_capacity as int)
}

/// Largest removal the computation tracks exactly (2^66 nJ); any larger
/// removal empties the stored energy down to the smallest `i64` anyway.
pub const REMOVAL_CAP: u128 = 0x4_0000_0000_0000_0000;

proof fn lemma_ceil_div_large(x: int, d: int)
    requires
        x > u128::MAX,
        0 < d <= CONVECTION_DIVISOR,
    ensures
        ceil_div(x, d) >= REMOVAL_CAP,
{
    assert((x + d - 1) / d >= REMOVAL_CAP) by (nonlinear_arith)
        requires
            x > u128::MAX,
            0 < d <= 100_000_000_000_000_000,
    {
        assert(REMOVAL_CAP * d <= x);
        vstd::arithmetic::div_mod::lemma_div_is_ordered(REMOVAL_CAP * d, x + d - 1, d);
        vstd::arithmetic::div_mod::lemma_div_by_multiple(REMOVAL_CAP as int, d);
    }
}

proof fn lemma_ceil_div_nonneg(x: int, d: int)
    requires
        x >= 0,
        d > 0,
    ensures
        ceil_div(x, d) >= 0,
        x > 0 ==> ceil_div(x, d) >= 1,
{
    vstd::arithmetic::div_mod::lemma_div_pos_is_pos(x + d - 1, d);
    if x > 0 {
        vstd::arithmetic::div_mod::lemma_div_is_ordered(d, x + d - 1, d);
        vstd::arithmetic::div_mod::lemma_div_by_self(d);
    }
}

/// `ceil(a * b * c / d)`, held at `REMOVAL_CAP` when larger.
fn product_ceil_div(a: u128, b: u128, c: u128, d: u128) -> (r: u128)
    requires
        0 < d <= CONVECTION_DIVISOR,
    ensures
        r == min_spec(ceil_div(a * b * c, d as int), REMOVAL_CAP as int),
{
    proof {
        assert(a * b * c >= 0) by (nonlinear_arith)
            requires
                a >= 0,
                b >= 0,
                c >= 0,
        ;
        lemma_ceil_div_nonneg(a * b * c, d as int);
    }
    if a == 0 || b == 0 || c == 0 {
        assert(a * b * c == 0) by (nonlinear_arith)
            requires
                a == 0 || b == 0 || c == 0,
        ;
        assert(ceil_div(0, d as int) == 0) by {
            vstd::arithmetic::div_mod::lemma_basic_div(d - 1, d as int);
        }
        return 0;
    }
    match a.checked_mul(b) {
        None => {
            assert(a * b * c > u128::MAX) by (nonlinear_arith)
                requires
                    a * b > u128::MAX,
                    c >= 1,
            ;
            proof {
                lemma_ceil_div_large(a * b * c, d as int);
            }
            REMOVAL_CAP
        },
        Some(ab) => {
            match ab.checked_mul(c) {
                None => {
                    proof {
                        lemma_ceil_div_large(a * b * c, d as int);
                    }
                    REMOVAL_CAP
                },
                Some(abc) => {
                    let q = abc / d;
                    let up: u128 = if abc % d != 0 {
                        1
                    } else {
                        0
                    };
                    proof {
                        vstd::arithmetic::div_mod::lemma_fundamental_div_mod(abc as int, d as int);
                        let x = abc as int;
                        let dd = d as int;
                        assert((x / dd + 1) * dd == dd * (x / dd) + dd) by (nonlinear_arith);
                        assert((x / dd) * dd == dd * (x / dd)) by (nonlinear_arith);
                        if x % dd != 0 {
                            vstd::arithmetic::div_mod::lemma_fundamental_div_mod_converse(
                                x + dd - 1,
                                dd,
                                x / dd + 1,
                                x % dd - 1,
                            );
                        } else {
                            vstd::arithmetic::div_mod::lemma_fundamental_div_mod_converse(
                                x + dd - 1,
                                dd,
                                x / dd,
                                dd - 1,
                            );
                        }
                    }
                    if q >= REMOVAL_CAP {
                        REMOVAL_CAP
                    } else {
                        q + up
                    }
                },
            }
        },
    }
}

/// Heat removed in one tick, as `removal`, held at `REMOVAL_CAP`.
fn removal_amount(s: &ThermalState, cooling: Option<CoolingSystem>, dt: u64) -> (r: u128)
    requires
        s.temperature > AMBIENT,
    ensures
        r == min_spec(removal(*s, cooling, dt as int), REMOVAL_CAP as int),
{
    let delta = s.temperature - AMBIENT;
    match cooling {
        Some(c) => {
            let by_power = product_ceil_div(c.cooling_power as u128, dt as u128, 1, POWER_DIVISOR);
            let proportional = product_ceil_div(
                delta,
                c.efficiency as u128,
                s.heat_capacity as u128,
                PROPORTIONAL_DIVISOR,
            );
            assert(c.cooling_power * dt * 1 == c.cooling_power * dt);
            if by_power <= proportional {
                by_power
            } else {
                proportional
            }
        },
        None => product_ceil_div(delta, s.heat_capacity as u128, dt as u128, CONVECTION_DIVISOR),
    }
}

/// One tick of dissipation of `dt` picoseconds, with or without a cooling
/// attachment.
pub fn dissipate(thermal: &mut ThermalState, cooling: Option<CoolingSystem>, dt: u64)
    requires
        old(thermal).wf(),
    ensures
        *final(thermal) == dissipate_spec(*old(thermal), cooling, dt as int),
        final(thermal).wf(),
{
    if thermal.temperature <= AMBIENT {
        return;
    }
    let r = removal_amount(thermal, cooling, dt);
    proof {
        let delta = thermal.temperature - AMBIENT;
        assert(delta * thermal.heat_capacity * dt >= 0) by (nonlinear_arith)
            requires
                delta >= 0,
        ;
        lemma_removal_nonneg(*thermal, cooling, dt as int);
    }
    let left: i128 = (thermal.heat_energy as i128) - (r as i128);
    let e: i64 = if left < i64::MIN as i128 {
        i64::MIN
    } else {
        left as i64
    };
    let cap = thermal.heat_capacity as i128;
    let rise: i128 = if e > 0 {
        (e as i128) * 1000 / cap
    } else {
        proof {
            lemma_nonpositive_rise(e as int, cap as int);
        }
        0
    };
    proof {
        if e > 0 {
            vstd::arithmetic::div_mod::lemma_div_pos_is_pos(e * 1000, cap as int);
            vstd::arithmetic::div_mod::lemma_div_is_ordered_by_denominator(e * 1000, 1, cap as int);
        }
    }
    thermal.temperature = AMBIENT + rise as u128;
    thermal.heat_energy = e;
}

/// `n` consecutive ticks of dissipation with no heat input.
pub open spec fn dissipate_ticks(s: ThermalState, cooling: Option<CoolingSystem>, dt: int, n: nat) -> ThermalState
    decreases n,
{
    if n == 0 {
        s
    } else {
        dissipate_ticks(dissipate_spec(s, cooling, dt), cooling, dt, (n - 1) as nat)
    }
}

/// Whether a tick of `dt` picoseconds removes heat from any body above
/// ambient: the tick has a duration and an attached cooler has both power
/// and efficiency.
pub open spec fn sheds_heat(cooling: Option<CoolingSystem>, dt: int) -> bool {
    dt > 0 && match cooling {
        Some(c) => c.cooling_power > 0 && c.efficiency > 0,
        None => true,
    }
}

proof fn lemma_settled_rise_monotone(e1: int, e2: int, cap: int)
    requires
        e1 <= e2,
        cap > 0,
    ensures
        settled_temperature(e1, cap) <= settled_temperature(e2, cap),
{
    vstd::arithmetic::div_mod::lemma_div_is_ordered(e1 * 1000, e2 * 1000, cap);
}

/// One tick of dissipation never takes a body that is at or above ambient
/// below ambient, never warms a body whose temperature is the one its heat
/// accounts for, and leaves every body that was above ambient in that state.
pub proof fn lemma_dissipation_step(s: ThermalState, cooling: Option<CoolingSystem>, dt: nat)
    requires
        s.wf(),
    ensures
        s.temperature >= AMBIENT ==> dissipate_spec(s, cooling, dt as int).temperature >= AMBIENT,
        is_settled(s) ==> dissipate_spec(s, cooling, dt as int).temperature <= s.temperature,
        is_settled(s) ==> is_settled(dissipate_spec(s, cooling, dt as int)),
        s.temperature > AMBIENT ==> is_settled(dissipate_spec(s, cooling, dt as int)),
        dissipate_spec(s, cooling, dt as int).wf(),
{
    if s.temperature > AMBIENT {
        lemma_removal_nonneg(s, cooling, dt as int);
        let e = max_spec(s.heat_energy - removal(s, cooling, dt as int), i64::MIN as int);
        lemma_settled_rise_monotone(e, s.heat_energy as int, s.heat_capacity as int);
        let t = settled_temperature(e, s.heat_capacity as int);
        if e > 0 {
            vstd::arithmetic::div_mod::lemma_div_is_ordered_by_denominator(e * 1000, 1, s.heat_capacity as int);
        } else {
            lemma_nonpositive_rise(e, s.heat_capacity as int);
        }
        assert(AMBIENT <= t <= u128::MAX);
    }
}

proof fn lemma_removal_positive(s: ThermalState, cooling: Option<CoolingSystem>, dt: int)
    requires
        s.wf(),
        s.temperature > AMBIENT,
        sheds_heat(cooling, dt),
    ensures
        removal(s, cooling, dt) >= 1,
{
    let delta = s.temperature - AMBIENT;
    match cooling {
        Some(c) => {
            assert(c.cooling_power * dt >= 1) by (nonlinear_arith)
                requires
                    c.cooling_power >= 1,
                    dt >= 1,
            ;
            assert(delta * c.efficiency * s.heat_capacity >= 1) by (nonlinear_arith)
                requires
                    delta >= 1,
                    c.efficiency >= 1,
                    s.heat_capacity >= 1,
            ;
            lemma_ceil_div_nonneg(c.cooling_power * dt, POWER_DIVISOR as int);
            lemma_ceil_div_nonneg(delta * c.efficiency * s.heat_capacity, PROPORTIONAL_DIVISOR as int);
        },
        None => {
            assert(delta * s.heat_capacity * dt >= 1) by (nonlinear_arith)
                requires
                    delta >= 1,
                    s.heat_capacity >= 1,
                    dt >= 1,
            ;
            lemma_ceil_div_nonneg(delta * s.heat_capacity * dt, CONVECTION_DIVISOR as int);
        },
    }
}

proof fn lemma_at_ambient_stays(s: ThermalState, cooling: Option<CoolingSystem>, dt: int, n: nat)
    requires
        s.temperature <= AMBIENT,
    ensures
        dissipate_ticks(s, cooling, dt, n) == s,
    decreases n,
{
    if n > 0 {
        lemma_at_ambient_stays(s, cooling, dt, (n - 1) as nat);
    }
}

/// Dissipation convergence: a body whose temperature is the one its heat
/// accounts for, left without heat input under a tick that sheds heat,
/// reaches ambient temperature after at most as many ticks as it holds
/// nanojoules, cooling monotonically and never below ambient on the way.
pub proof fn lemma_dissipation_converges(s: ThermalState, cooling: Option<CoolingSystem>, dt: nat, n: nat)
    requires
        s.wf(),
        is_settled(s),
        sheds_heat(cooling, dt as int),
        s.heat_energy <= n,
    ensures
        dissipate_ticks(s, cooling, dt as int, n).temperature == AMBIENT,
    decreases n,
{
    lemma_dissipation_step(s, cooling, dt);
    if s.temperature <= AMBIENT {
        lemma_at_ambient_stays(s, cooling, dt as int, n);
        assert(s.temperature >= AMBIENT);
    } else if n == 0 {
        lemma_nonpositive_rise(s.heat_energy as int, s.heat_capacity as int);
    } else {
        lemma_removal_positive(s, cooling, dt as int);
        let next = dissipate_spec(s, cooling, dt as int);
        assert(next.heat_energy <= n - 1);
        lemma_dissipation_converges(next, cooling, dt, (n - 1) as nat);
    }
}

proof fn lemma_nonpositive_rise(e: int, cap: int)
    requires
        e <= 0,
        cap > 0,
    ensures
        e * 1000 / cap <= 0,
{
    if e < 0 {
        vstd::arithmetic::div_mod::lemma_div_is_ordered(e * 1000, 0, cap);
        vstd::arithmetic::div_mod::lemma_basic_div(0, cap);
    } else {
        vstd::arithmetic::div_mod::lemma_basic_div(0, cap);
    }
}

proof fn lemma_removal_nonneg(s: ThermalState, cooling: Option<CoolingSystem>, dt: int)
    requires
        s.temperature > AMBIENT,
        dt >= 0,
    ensures
        removal(s, cooling, dt) >= 0,
{
    let delta = s.temperature - AMBIENT;
    match cooling {
        Some(c) => {
            assert(c.cooling_power * dt >= 0) by (nonlinear_arith)
                requires
                    dt >= 0,
            ;
            assert(delta * c.efficiency * s.heat_capacity >= 0) by (nonlinear_arith)
                requires
                    delta >= 0,
            ;
            lemma_ceil_div_nonneg(c.cooling_power * dt, POWER_DIVISOR as int);
            lemma_ceil_div_nonneg(delta * c.efficiency * s.heat_capacity, PROPORTIONAL_DIVISOR as int);
        },
        None => {
            assert(delta * s.heat_capacity * dt >= 0) by (nonlinear_arith)
                requires
                    delta >= 0,
                    dt >= 0,
            ;
            lemma_ceil_div_nonneg(delta * s.heat_capacity * dt, CONVECTION_DIVISOR as int);
        },
    }
}

/// An entity after one tick of dissipation.
pub open spec fn after_dissipation(e: EntityRecord, dt: int) -> EntityRecord {
    match e.thermal {
        Some(t) => EntityRecord { thermal: Some(dissipate_spec(t, e.cooling, dt)), ..e },
        None => e,
    }
}

/// Lets every body with heat shed it toward ambient for `dt` picoseconds.
pub fn thermal_dissipation_system(world: &mut World, dt: u64)
    requires
        old(world).wf(),
    ensures
        final(world).wf(),
        final(world).next_id == old(world).next_id,
        final(world).entities@ == Seq::new(
            old(world).entities@.len(),
            |k: int| after_dissipation(old(world).entities@[k], dt as int),
        ),
{
    let n = world.entities.len();
    let mut i: usize = 0;
    while i < n
        invariant
            world.wf(),
            world.next_id == old(world).next_id,
            world.entities@.len() == n,
            old(world).entities@.len() == n,
            i <= n,
            forall|k: int| 0 <= k < i ==> world.entities@[k] == after_dissipation(old(world).entities@[k], dt as int),
            forall|k: int| i <= k < n ==> world.entities@[k] == old(world).entities@[k],
        decreases n - i,
    {
        let e = world.entities[i];
        assert(record_ok(world.entities@[i as int]));
        if let Some(t) = e.thermal {
            let mut heat = t;
            dissipate(&mut heat, e.cooling, dt);
            world.entities.set(i, EntityRecord { thermal: Some(heat), ..e });
        }
        i = i + 1;
    }
    assert(world.entities@ =~= Seq::new(n as nat, |k: int| after_dissipation(old(world).entities@[k], dt as int)));
}

/// Temperature above which a body is flagged, 400 K, in microkelvin.
pub const WARNING_TEMP: u128 = 400_000_000;

/// Temperature above which a body is flagged as critical, 600 K.
pub const CRITICAL_TEMP: u128 = 600_000_000;

/// Severity of a thermal excursion.
#[derive(Clone, Copy, Debug, PartialEq, Eq, Structural)]
pub enum AlertLevel {
    Warning,
    Critical,
}

/// An entity found too hot.
#[derive(Clone, Copy, Debug, PartialEq, Eq, Structural)]
pub struct ThermalAlert {
    pub entity: u64,
    pub temperature: u128,
    pub level: AlertLevel,
}

/// The alert raised for `e`, if any.
pub open spec fn alert_for(e: EntityRecord) -> Option<ThermalAlert> {
    match e.thermal {
        Some(t) => if t.temperature > CRITICAL_TEMP {
            Some(ThermalAlert { entity: e.id, temperature: t.temperature, level: AlertLevel::Critical })
        } else if t.temperature > WARNING_TEMP {
            Some(ThermalAlert { entity: e.id, temperature: t.temperature, level: AlertLevel::Warning })
        } else {
            None
        },
        None => None,
    }
}

/// Alerts raised for the entities of `s`, in order.
pub open spec fn alerts_for(s: Seq<EntityRecord>) -> Seq<ThermalAlert>
    decreases s.len(),
{
    if s.len() == 0 {
        Seq::empty()
    } else {
        let rest = alerts_for(s.drop_last());
        match alert_for(s.last()) {
            Some(a) => rest.push(a),
            None => rest,
        }
    }
}

/// Flags every body above the warning or the critical temperature. The
/// alerts are advisory: the world is not changed.
pub fn thermal_warning_system(world: &World) -> (alerts: Vec<ThermalAlert>)
    ensures
        alerts@ == alerts_for(world.entities@),
{
    let n = world.entities.len();
    let mut alerts: Vec<ThermalAlert> = Vec::new();
    let mut i: usize = 0;
    while i < n
        invariant
            n == world.entities@.len(),
            i <= n,
            alerts@ == alerts_for(world.entities@.take(i as int)),
        decreases n - i,
    {
        proof {
            assert(world.entities@.take(i + 1).drop_last() == world.entities@.take(i as int));
            assert(world.entities@.take(i + 1).last() == world.entities@[i as int]);
        }
        let e = world.entities[i];
        if let Some(t) = e.thermal {
            if t.temperature > CRITICAL_TEMP {
                alerts.push(ThermalAlert { entity: e.id, temperature: t.temperature, level: AlertLevel::Critical });
            } else if t.temperature > WARNING_TEMP {
                alerts.push(ThermalAlert { entity: e.id, temperature: t.temperature, level: AlertLevel::Warning });
            }
        }
        i = i + 1;
    }
    assert(world.entities@.take(n as int) == world.entities@);
    alerts
}

/// Aggregate heat figures: temperatures in microkelvin, heat in nanojoules.
#[derive(Clone, Copy, Debug, PartialEq, Eq, Structural)]
pub struct ThermalStatistics {
    pub max_temperature: u128,
    pub avg_temperature: u128,
    pub total_heat_energy: i128,
}

impl Default for ThermalStatistics {
    fn default() -> (r: ThermalStatistics)
        ensures
            r == (ThermalStatistics { max_temperature: 0, avg_temperature: 0, total_heat_energy: 0 }),
    {
        ThermalStatistics { max_temperature: 0, avg_temperature: 0, total_heat_energy: 0 }
    }
}

/// Number of bodies with heat among `s`.
pub open spec fn thermal_count(s: Seq<EntityRecord>) -> int
    decreases s.len(),
{
    if s.len() == 0 {
        0
    } else {
        thermal_count(s.drop_last()) + if s.last().thermal is Some { 1int } else { 0int }
    }
}

/// Highest temperature among `s` (0 when none has heat).
pub open spec fn thermal_max(s: Seq<EntityRecord>) -> int
    decreases s.len(),
{
    if s.len() == 0 {
        0
    } else {
        let m = thermal_max(s.drop_last());
        match s.last().thermal {
            Some(t) => if t.temperature > m { t.temperature as int } else { m },
            None => m,
        }
    }
}

/// Sum of the temperatures among `s`.
pub open spec fn temperature_sum(s: Seq<EntityRecord>) -> int
    decreases s.len(),
{
    if s.len() == 0 {
        0
    } else {
        temperature_sum(s.drop_last()) + match s.last().thermal {
            Some(t) => t.temperature as int,
            None => 0int,
        }
    }
}

/// Sum of the heat energies among `s`.
pub open spec fn heat_sum(s: Seq<EntityRecord>) -> int
    decreases s.len(),
{
    if s.len() == 0 {
        0
    } else {
        heat_sum(s.drop_last()) + match s.last().thermal {
            Some(t) => t.heat_energy as int,
            None => 0int,
        }
    }
}

proof fn lemma_sums_nonneg_bounded(s: Seq<EntityRecord>)
    ensures
        temperature_sum(s) >= 0,
        thermal_count(s) <= s.len(),
        -s.len() * 0x8000_0000_0000_0000 <= heat_sum(s) <= s.len() * 0x8000_0000_0000_0000,
    decreases s.len(),
{
    if s.len() > 0 {
        lemma_sums_nonneg_bounded(s.drop_last());
    }
}

/// What recomputing the heat figures of `s` does to the statistics `st0`.
pub open spec fn thermal_stats_step(s: Seq<EntityRecord>, st0: ThermalStatistics, st1: ThermalStatistics) -> bool {
    &&& thermal_count(s) > 0 ==> st1.max_temperature == thermal_max(s) && st1.avg_temperature
        == crate::vector::min_spec_u128(temperature_sum(s)) / thermal_count(s) && st1.total_heat_energy == heat_sum(s)
    &&& thermal_count(s) == 0 ==> st1 == st0
}

/// Recomputes the maximum and mean temperature and the total heat over all
/// bodies with heat; the figures are kept as they were when there is none.
/// The temperature sum behind the mean stops at `u128::MAX`.
pub fn thermal_statistics_system(world: &World, stats: &mut ThermalStatistics)
    ensures
        thermal_count(world.entities@) > 0 ==> final(stats).max_temperature == thermal_max(world.entities@)
            && final(stats).avg_temperature == crate::vector::min_spec_u128(temperature_sum(world.entities@))
                / thermal_count(world.entities@) && final(stats).total_heat_energy == heat_sum(world.entities@),
        thermal_count(world.entities@) == 0 ==> *final(stats) == *old(stats),
{
    let n = world.entities.len();
    let mut max_temp: u128 = 0;
    let mut total_temp: u128 = 0;
    let mut total_energy: i128 = 0;
    let mut count: u64 = 0;
    let mut i: usize = 0;
    while i < n
        invariant
            n == world.entities@.len(),
            i <= n,
            count == thermal_count(world.entities@.take(i as int)),
            max_temp == thermal_max(world.entities@.take(i as int)),
            total_temp == crate::vector::min_spec_u128(temperature_sum(world.entities@.take(i as int))),
            total_energy == heat_sum(world.entities@.take(i as int)),
        decreases n - i,
    {
        proof {
            assert(world.entities@.take(i + 1).drop_last() == world.entities@.take(i as int));
            assert(world.entities@.take(i + 1).last() == world.entities@[i as int]);
            lemma_sums_nonneg_bounded(world.entities@.take(i as int));
            lemma_sums_nonneg_bounded(world.entities@.take(i + 1));
            assert(0x1_0000_0000_0000_0000 * 0x8000_0000_0000_0000 <= i128::MAX + 1);
        }
        let e = world.entities[i];
        if let Some(t) = e.thermal {
            if t.temperature > max_temp {
                max_temp = t.temperature;
            }
            total_temp = if total_temp > u128::MAX - t.temperature {
                u128::MAX
            } else {
                total_temp + t.temperature
            };
            total_energy = total_energy + t.heat_energy as i128;
            count = count + 1;
        }
        i = i + 1;
    }
    assert(world.entities@.take(n as int) == world.entities@);
    if count > 0 {
        stats.max_temperature = max_temp;
        stats.avg_temperature = total_temp / (count as u128);
        stats.total_heat_energy = total_energy;
    }
}

} // verus!
