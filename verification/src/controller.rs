//! The compositor/renderer: folds buffered element updates into the
//! current per-element state, resolves ownership and expiry, composites
//! stacked color regions into a frame, blends it toward the previous
//! frame and pushes changed frames to a `Controller`.

use vstd::prelude::*;

use crate::codec::wsub;
use crate::color::Color;
use crate::color::ColorMap;
use crate::msg::Command;
use crate::msg::Error;
use crate::msg::LedMsg;
use crate::transport::Receiver;

verus! {

/// How long an element update stays current, in microseconds.
pub const EXPIRY_MICROS: u64 = 5_000_000;

/// The age of a record's time `t` as seen at clock `now`, on the
/// wrapping 64-bit clock.
pub open spec fn age_of(now: u64, t: u64) -> u64 {
    wsub(now, t)
}

/// Whether a record with time `t` is still current at `now`: strictly
/// younger than the expiry window. An age of exactly the window is
/// already out.
pub open spec fn in_window(now: u64, t: u64) -> bool {
    age_of(now, t) < EXPIRY_MICROS
}

/// A record one microsecond younger than the expiry boundary is kept;
/// one whose age is exactly the boundary is dropped.
pub proof fn lemma_expiry_boundary(now: u64)
    ensures
        !in_window(now, wsub(now, EXPIRY_MICROS)),
        in_window(now, wsub(now, (EXPIRY_MICROS - 1) as u64)),
{
}

/// The active-record table after scanning `msgs[..i]`: for each of the
/// 256 elements, the index of the record that owns it, if any. A
/// record takes an element when it is in the expiry window and no
/// younger record (no record of smaller age) has taken it; on equal
/// age the later record wins.
pub open spec fn active_upto(msgs: Seq<LedMsg>, now: u64, i: int) -> Seq<Option<int>>
    decreases i,
{
    if i <= 0 {
        Seq::new(256, |e: int| None)
    } else {
        let t = active_upto(msgs, now, i - 1);
        let m = msgs[i - 1];
        let e = m.element as int;
        if in_window(now, m.time) && (t[e] is None || age_of(now, m.time) <= age_of(
            now,
            msgs[t[e]->Some_0].time,
        )) {
            t.update(e, Some(i - 1))
        } else {
            t
        }
    }
}

/// The active-record table over the whole buffer.
pub open spec fn active_table(msgs: Seq<LedMsg>, now: u64) -> Seq<Option<int>> {
    active_upto(msgs, now, msgs.len() as int)
}

/// What one entry of the active table means: `None` when no record of
/// `msgs[..i]` holds the element within the window; otherwise the
/// youngest in-window record for it, the later one on equal age.
pub open spec fn entry_ok(msgs: Seq<LedMsg>, now: u64, i: int, e: int, entry: Option<int>) -> bool {
    match entry {
        None => forall|k: int|
            0 <= k < i ==> !((#[trigger] msgs[k]).element as int == e && in_window(
                now,
                msgs[k].time,
            )),
        Some(j) => {
            &&& 0 <= j < i
            &&& msgs[j].element as int == e
            &&& in_window(now, msgs[j].time)
            &&& forall|k: int|
                0 <= k < i && (#[trigger] msgs[k]).element as int == e && in_window(
                    now,
                    msgs[k].time,
                ) ==> (age_of(now, msgs[k].time) > age_of(now, msgs[j].time) || (age_of(
                    now,
                    msgs[k].time,
                ) == age_of(now, msgs[j].time) && k <= j))
        },
    }
}

/// The active table really picks, per element, the youngest in-window
/// record — the ownership rule of the compositor.
pub proof fn lemma_active_table_ok(msgs: Seq<LedMsg>, now: u64, i: int)
    requires
        0 <= i <= msgs.len(),
    ensures
        active_upto(msgs, now, i).len() == 256,
        forall|e: int|
            0 <= e < 256 ==> entry_ok(msgs, now, i, e, #[trigger] active_upto(msgs, now, i)[e]),
    decreases i,
{
    if i > 0 {
        lemma_active_table_ok(msgs, now, i - 1);
        let t = active_upto(msgs, now, i - 1);
        let t1 = active_upto(msgs, now, i);
        let m = msgs[i - 1];
        let e0 = m.element as int;
        assert forall|e: int| 0 <= e < 256 implies entry_ok(msgs, now, i, e, t1[e]) by {
            if e != e0 {
                assert(t1[e] == t[e]);
                match t[e] {
                    None => {},
                    Some(j) => {},
                }
            } else {
                if in_window(now, m.time) && (t[e0] is None || age_of(now, m.time) <= age_of(
                    now,
                    msgs[t[e0]->Some_0].time,
                )) {
                    assert(t1[e0] == Some(i - 1));
                } else {
                    assert(t1[e0] == t[e0]);
                }
            }
        }
    }
}

/// Ownership: of two in-window records for the same element, the one
/// with the newer time — the smaller wrapping age — is the element's
/// active record.
pub proof fn lemma_ownership(msgs: Seq<LedMsg>, now: u64, a: int, b: int)
    requires
        0 <= a < msgs.len(),
        0 <= b < msgs.len(),
        msgs[a].element == msgs[b].element,
        in_window(now, msgs[a].time),
        in_window(now, msgs[b].time),
        age_of(now, msgs[a].time) < age_of(now, msgs[b].time),
    ensures
        active_table(msgs, now)[msgs[a].element as int] matches Some(j) && age_of(
            now,
            msgs[j].time,
        ) <= age_of(now, msgs[a].time),
        active_table(msgs, now)[msgs[a].element as int] != Some(b),
{
    lemma_active_table_ok(msgs, now, msgs.len() as int);
    let e = msgs[a].element as int;
    match active_table(msgs, now)[e] {
        None => {
            assert(msgs[a].element as int == e && in_window(now, msgs[a].time));
            assert(false);
        },
        Some(j) => {
            assert(age_of(now, msgs[a].time) > age_of(now, msgs[j].time) || (age_of(
                now,
                msgs[a].time,
            ) == age_of(now, msgs[j].time) && a <= j));
        },
    }
}

/// One channel of additive compositing: saturating at 255.
pub open spec fn add_sat(a: u8, b: u8) -> u8 {
    if a + b > 255 {
        255
    } else {
        (a + b) as u8
    }
}

/// Additive blend of two colors, channel by channel, alpha included.
pub open spec fn add_color(a: Color, b: Color) -> Color {
    Color {
        red: add_sat(a.red, b.red),
        green: add_sat(a.green, b.green),
        blue: add_sat(a.blue, b.blue),
        alpha: add_sat(a.alpha, b.alpha),
    }
}

/// How many physical LEDs a stack of `v + 1` logical units covers on
/// a strip of `nleds`: the proportional share, rounded to nearest.
pub open spec fn span_len(v: u8, nleds: nat) -> int {
    ((v + 1) * nleds + 128) / 256
}

/// The frame and cursor after compositing the active records of
/// elements below `e`, in ascending element order: each `FlatStack`
/// adds its palette color into its span and advances the cursor,
/// clamped to the strip end.
pub open spec fn composite_upto(
    msgs: Seq<LedMsg>,
    table: Seq<Option<int>>,
    cmap: Seq<Color>,
    nleds: nat,
    e: int,
) -> (Seq<Color>, int)
    decreases e,
{
    if e <= 0 {
        (Seq::new(nleds, |i: int| Color { red: 0, green: 0, blue: 0, alpha: 0 }), 0)
    } else {
        let prev = composite_upto(msgs, table, cmap, nleds, e - 1);
        match table[e - 1] {
            None => prev,
            Some(j) => match msgs[j].cmd {
                Command::FlatStack(v) => {
                    let start = prev.1;
                    let end = if start + span_len(v, nleds) > nleds {
                        nleds as int
                    } else {
                        start + span_len(v, nleds)
                    };
                    (
                        Seq::new(
                            nleds,
                            |i: int|
                                if start <= i < end {
                                    add_color(prev.0[i], cmap[msgs[j].color as int])
                                } else {
                                    prev.0[i]
                                },
                        ),
                        end,
                    )
                },
                _ => prev,
            },
        }
    }
}

/// Whether every active record carries the one implemented effect.
/// Any other active command is a deliberate fatal fault of the tick.
pub open spec fn all_flatstack(msgs: Seq<LedMsg>, table: Seq<Option<int>>) -> bool {
    forall|e: int|
        0 <= e < 256 ==> ((#[trigger] table[e]) matches Some(j) ==> msgs[j].cmd is FlatStack)
}

/// One channel of temporal smoothing: exponential decay toward the
/// target, stepped by one when rounding would stall short of it.
pub open spec fn blend_channel(o: u8, t: u8, b: u8) -> u8 {
    if o == t {
        o
    } else {
        let nv = (o * b + t) / (b + 1);
        if nv == o {
            (o + 1) as u8
        } else {
            nv as u8
        }
    }
}

/// Temporal smoothing of one pixel toward its target color.
pub open spec fn blend_color(o: Color, t: Color, b: u8) -> Color {
    Color {
        red: blend_channel(o.red, t.red, b),
        green: blend_channel(o.green, t.green, b),
        blue: blend_channel(o.blue, t.blue, b),
        alpha: blend_channel(o.alpha, t.alpha, b),
    }
}

/// Temporal smoothing of a whole frame toward a target frame.
pub open spec fn blend_frame(o: Seq<Color>, t: Seq<Color>, b: u8) -> Seq<Color>
    recommends
        o.len() == t.len(),
{
    Seq::new(o.len(), |i: int| blend_color(o[i], t[i], b))
}

/// Whether the record at `i` survives the garbage collection of a
/// tick: only each element's active record is kept.
pub open spec fn keep_at(msgs: Seq<LedMsg>, table: Seq<Option<int>>, i: int) -> bool {
    0 <= i < msgs.len() && table[msgs[i].element as int] == Some(i)
}

/// The buffer after garbage-collecting everything up to `upto`,
/// keeping only active records, in their original order.
pub open spec fn prune_spec(msgs: Seq<LedMsg>, table: Seq<Option<int>>, upto: int) -> Seq<LedMsg>
    decreases upto,
{
    if upto <= 0 {
        Seq::empty()
    } else {
        let prev = prune_spec(msgs, table, upto - 1);
        if keep_at(msgs, table, upto - 1) {
            prev.push(msgs[upto - 1])
        } else {
            prev
        }
    }
}

/// An active table held in an executable vector, read as the spec's.
pub open spec fn table_view(t: Seq<Option<usize>>) -> Seq<Option<int>> {
    Seq::new(
        t.len(),
        |e: int|
            match t[e] {
                None => None,
                Some(j) => Some(j as int),
            },
    )
}

/// Scan the buffer and resolve, for each element, which record owns
/// it this tick: the youngest in-window record, the later one on
/// equal age.
fn resolve_active(msgs: &Vec<LedMsg>, now: u64) -> (table: Vec<Option<usize>>)
    ensures
        table@.len() == 256,
        table_view(table@) == active_table(msgs@, now),
{
    let mut table: Vec<Option<usize>> = vec![None; 256];
    proof {
        assert(table_view(table@) =~= active_upto(msgs@, now, 0));
    }
    let mut i: usize = 0;
    while i < msgs.len()
        invariant
            i <= msgs@.len(),
            table@.len() == 256,
            table_view(table@) == active_upto(msgs@, now, i as int),
        decreases msgs@.len() - i,
    {
        proof {
            lemma_active_table_ok(msgs@, now, i as int);
        }
        let m = msgs[i];
        if now.wrapping_sub(m.time) < EXPIRY_MICROS {
            let e = m.element as usize;
            let replace: bool = match table[e] {
                None => true,
                Some(j) => {
                    proof {
                        assert(table_view(table@)[e as int] == Some(j as int));
                        assert(entry_ok(msgs@, now, i as int, e as int, Some(j as int)));
                    }
                    let prev = msgs[j];
                    now.wrapping_sub(m.time) <= now.wrapping_sub(prev.time)
                },
            };
            if replace {
                table[e] = Some(i);
            }
        }
        proof {
            assert(table_view(table@) =~= active_upto(msgs@, now, i + 1));
        }
        i = i + 1;
    }
    table
}

/// Add `b` into `a`, channel by channel, saturating at 255.
fn add_color_exec(a: Color, b: Color) -> (r: Color)
    ensures
        r == add_color(a, b),
{
    Color {
        red: a.red.saturating_add(b.red),
        green: a.green.saturating_add(b.green),
        blue: a.blue.saturating_add(b.blue),
        alpha: a.alpha.saturating_add(b.alpha),
    }
}

/// One channel of temporal smoothing.
fn blend_channel_exec(o: u8, t: u8, b: u8) -> (r: u8)
    ensures
        r == blend_channel(o, t, b),
{
    if o == t {
        o
    } else {
        proof {
            vstd::arithmetic::mul::lemma_mul_upper_bound(o as int, 255, b as int, 255);
            vstd::arithmetic::mul::lemma_mul_inequality(o as int, 255, b as int);
            assert(255 * (b as int + 1) == 255 * (b as int) + 255);
            vstd::arithmetic::div_mod::lemma_div_is_ordered(
                o as int * b as int + t as int,
                255 * (b as int + 1),
                b as int + 1,
            );
            vstd::arithmetic::div_mod::lemma_div_by_multiple(255, b as int + 1);
            if o == 255 && t < 255 {
                vstd::arithmetic::div_mod::lemma_div_is_ordered(
                    o as int * b as int + t as int,
                    255 * (b as int + 1) - 1,
                    b as int + 1,
                );
                vstd::arithmetic::div_mod::lemma_fundamental_div_mod_converse(
                    255 * (b as int + 1) - 1,
                    b as int + 1,
                    254,
                    b as int,
                );
            }
        }
        let nv16 = ((o as u16) * (b as u16) + (t as u16)) / ((b as u16) + 1);
        let nv = nv16 as u8;
        if nv == o {
            o + 1
        } else {
            nv
        }
    }
}

/// Blend the displayed frame one step toward the target frame,
/// reporting whether anything visible changed.
fn blend_into(leds: &mut Vec<Color>, target: &Vec<Color>, b: u8) -> (changed: bool)
    requires
        old(leds).len() == target.len(),
    ensures
        final(leds)@ == blend_frame(old(leds)@, target@, b),
        final(leds).len() == old(leds).len(),
        changed == (final(leds)@ != old(leds)@),
{
    let mut changed = false;
    let mut i: usize = 0;
    while i < leds.len()
        invariant
            i <= leds@.len(),
            leds@.len() == old(leds)@.len() == target@.len(),
            forall|k: int| 0 <= k < i ==> leds@[k] == blend_frame(old(leds)@, target@, b)[k],
            forall|k: int| i <= k < leds@.len() ==> leds@[k] == old(leds)@[k],
            changed == exists|k: int| 0 <= k < i && leds@[k] != old(leds)@[k],
        decreases leds@.len() - i,
    {
        let o = leds[i];
        let t = target[i];
        let nc = Color {
            red: blend_channel_exec(o.red, t.red, b),
            green: blend_channel_exec(o.green, t.green, b),
            blue: blend_channel_exec(o.blue, t.blue, b),
            alpha: blend_channel_exec(o.alpha, t.alpha, b),
        };
        let ghost changed_before = changed;
        if !(nc == o) {
            changed = true;
        }
        leds[i] = nc;
        proof {
            if nc != o {
                assert(leds@[i as int] != old(leds)@[i as int]);
            } else {
                assert(changed == changed_before);
            }
        }
        i = i + 1;
    }
    proof {
        assert(leds@ =~= blend_frame(old(leds)@, target@, b));
        if !changed {
            assert(leds@ =~= old(leds)@);
        }
        if leds@ == old(leds)@ {
            assert(forall|k: int| 0 <= k < leds@.len() ==> leds@[k] == old(leds)@[k]);
            assert(!changed);
        }
    }
    changed
}

/// Composite the active records into `work`, ascending by element:
/// each `FlatStack` adds its palette color over its span of the strip.
/// Returns false — leaving `work` half-built scratch — as soon as an
/// active record carries a command the compositor does not implement.
fn composite(
    msgs: &Vec<LedMsg>,
    table: &Vec<Option<usize>>,
    cmap: &ColorMap,
    nleds: usize,
    work: &mut Vec<Color>,
) -> (ok: bool)
    requires
        table@.len() == 256,
        forall|e: int|
            0 <= e < 256 ==> ((#[trigger] table@[e]) matches Some(j) ==> j < msgs@.len()),
    ensures
        ok == all_flatstack(msgs@, table_view(table@)),
        ok ==> final(work)@ == composite_upto(
            msgs@,
            table_view(table@),
            cmap@,
            nleds as nat,
            256,
        ).0,
        ok ==> final(work)@.len() == nleds,
{
    let ghost tv = table_view(table@);
    work.clear();
    let mut k: usize = 0;
    while k < nleds
        invariant
            k <= nleds,
            work@.len() == k,
            forall|i2: int|
                0 <= i2 < k ==> work@[i2] == (Color { red: 0, green: 0, blue: 0, alpha: 0 }),
        decreases nleds - k,
    {
        work.push(Color { red: 0, green: 0, blue: 0, alpha: 0 });
        k = k + 1;
    }
    proof {
        assert(work@ =~= composite_upto(msgs@, tv, cmap@, nleds as nat, 0).0);
    }
    let mut cursor: usize = 0;
    let mut e: usize = 0;
    while e < 256
        invariant
            e <= 256,
            cursor <= nleds,
            table@.len() == 256,
            tv == table_view(table@),
            forall|e2: int|
                0 <= e2 < 256 ==> ((#[trigger] table@[e2]) matches Some(j) ==> j < msgs@.len()),
            work@.len() == nleds,
            work@ == composite_upto(msgs@, tv, cmap@, nleds as nat, e as int).0,
            cursor as int == composite_upto(msgs@, tv, cmap@, nleds as nat, e as int).1,
            forall|e2: int|
                0 <= e2 < e ==> ((#[trigger] tv[e2]) matches Some(j) ==> msgs@[j].cmd
                    is FlatStack),
        decreases 256 - e,
    {
        match table[e] {
            None => {
                proof {
                    assert(tv[e as int] is None);
                    assert(composite_upto(msgs@, tv, cmap@, nleds as nat, e + 1) == composite_upto(
                        msgs@,
                        tv,
                        cmap@,
                        nleds as nat,
                        e as int,
                    ));
                }
            },
            Some(j) => {
                proof {
                    assert(tv[e as int] == Some(j as int));
                }
                let m = msgs[j];
                match m.cmd {
                    Command::FlatStack(v) => {
                        proof {
                            vstd::arithmetic::mul::lemma_mul_upper_bound(
                                v as int + 1,
                                256,
                                nleds as int,
                                usize::MAX as int,
                            );
                        }
                        let span128: u128 = (((v as u128) + 1) * (nleds as u128) + 128) / 256;
                        proof {
                            vstd::arithmetic::mul::lemma_mul_inequality(
                                v as int + 1,
                                256,
                                nleds as int,
                            );
                            vstd::arithmetic::div_mod::lemma_div_is_ordered(
                                (v as int + 1) * (nleds as int) + 128,
                                256 * (nleds as int) + 128,
                                256,
                            );
                            vstd::arithmetic::div_mod::lemma_fundamental_div_mod_converse_div(
                                256 * (nleds as int) + 128,
                                256,
                                nleds as int,
                                128,
                            );
                            assert(span128 as int == span_len(v, nleds as nat));
                            assert(span128 <= nleds);
                        }
                        let span: usize = span128 as usize;
                        let end: usize = if span > nleds - cursor {
                            nleds
                        } else {
                            cursor + span
                        };
                        let col = cmap.get(m.color);
                        let ghost prev_frame = work@;
                        let ghost start = cursor as int;
                        let mut kk: usize = cursor;
                        while kk < end
                            invariant
                                start <= kk <= end <= nleds,
                                start == cursor as int,
                                work@.len() == nleds,
                                prev_frame.len() == nleds,
                                forall|i2: int|
                                    0 <= i2 < nleds && !(start <= i2 < kk) ==> work@[i2]
                                        == prev_frame[i2],
                                forall|i2: int|
                                    start <= i2 < kk ==> work@[i2] == add_color(
                                        prev_frame[i2],
                                        col,
                                    ),
                            decreases end - kk,
                        {
                            let cur = work[kk];
                            work[kk] = add_color_exec(cur, col);
                            kk = kk + 1;
                        }
                        proof {
                            let stepped = composite_upto(msgs@, tv, cmap@, nleds as nat, e + 1);
                            assert(col == cmap@[msgs@[j as int].color as int]);
                            assert(stepped.1 == end as int);
                            assert(work@ =~= stepped.0);
                        }
                        cursor = end;
                    },
                    _ => {
                        proof {
                            assert(tv[e as int] matches Some(jj) && !(msgs@[jj].cmd
                                is FlatStack));
                            assert(!all_flatstack(msgs@, tv));
                        }
                        return false;
                    },
                }
            },
        }
        e = e + 1;
    }
    true
}

/// Garbage-collect the buffer in place: keep, in order, only the
/// records that are the active record of their element.
fn prune(msgs: &mut Vec<LedMsg>, table: &Vec<Option<usize>>)
    requires
        table@.len() == 256,
    ensures
        final(msgs)@ == prune_spec(
            old(msgs)@,
            table_view(table@),
            old(msgs)@.len() as int,
        ),
{
    let ghost tv = table_view(table@);
    let mut del: usize = 0;
    let mut i: usize = 0;
    let n = msgs.len();
    while i < n
        invariant
            del <= i <= n,
            n == msgs@.len(),
            msgs@.len() == old(msgs)@.len(),
            table@.len() == 256,
            tv == table_view(table@),
            msgs@.subrange(0, i - del) == prune_spec(old(msgs)@, tv, i as int),
            forall|k: int| i <= k < n ==> msgs@[k] == old(msgs)@[k],
        decreases n - i,
    {
        let m = msgs[i];
        let keep: bool = match table[m.element as usize] {
            None => false,
            Some(j) => j == i,
        };
        proof {
            assert(msgs@[i as int] == old(msgs)@[i as int]);
            assert(keep == keep_at(old(msgs)@, tv, i as int));
        }
        if keep {
            let ghost before = msgs@;
            if del > 0 {
                let src = msgs[i];
                msgs[i - del] = src;
            }
            proof {
                assert(msgs@.subrange(0, i - del) =~= before.subrange(0, i - del));
                assert(msgs@[i - del] == old(msgs)@[i as int]);
                assert(msgs@.subrange(0, i + 1 - del) =~= msgs@.subrange(0, i - del).push(
                    msgs@[i - del],
                ));
            }
        } else {
            del = del + 1;
        }
        i = i + 1;
    }
    msgs.truncate(n - del);
    proof {
        assert(final(msgs)@ == prune_spec(old(msgs)@, tv, n as int));
    }
}

/// How long a paced render loop should sleep before its `count`-th
/// tick: the time left until `period * count` microseconds past the
/// loop's start, and zero — never a negative wait — once the schedule
/// is behind. The target saturates rather than wraps.
pub fn pace_delay(elapsed: u64, period: u64, count: u64) -> (d: u64)
    ensures
        d == (if period * count > u64::MAX {
            if u64::MAX > elapsed {
                u64::MAX - elapsed
            } else {
                0
            }
        } else if period * count > elapsed {
            period * count - elapsed
        } else {
            0
        }),
{
    let target = match period.checked_mul(count) {
        Some(t) => t,
        None => u64::MAX,
    };
    if target > elapsed {
        target - elapsed
    } else {
        0
    }
}

/// A flush counter one step further on, stopping at the top rather
/// than wrapping.
pub open spec fn next_flush_count(n: u64) -> u64 {
    if n == u64::MAX {
        u64::MAX
    } else {
        (n + 1) as u64
    }
}

/// A physical or simulated LED driver: a strip of a fixed number of
/// pixels and a flush operation.
pub trait Controller {
    /// How many physical LEDs the controller drives.
    spec fn spec_led_count(&self) -> nat;

    /// How many frames have been flushed to the hardware so far.
    spec fn spec_flushes(&self) -> u64;

    /// The strip length.
    fn led_count(&self) -> (n: usize)
        ensures
            n as nat == self.spec_led_count(),
    ;

    /// Flush one frame, sized to the strip, out to the hardware:
    /// exactly one flush, on a strip of unchanged length.
    fn render(&mut self, frame: &Vec<Color>)
        requires
            frame@.len() == old(self).spec_led_count(),
        ensures
            final(self).spec_led_count() == old(self).spec_led_count(),
            final(self).spec_flushes() == next_flush_count(old(self).spec_flushes()),
    ;
}

/// An in-memory stand-in for a physical strip: it keeps the last
/// frame flushed to it and counts the flushes. Useful for running the
/// render loop without hardware.
pub struct MemController {
    frame: Vec<Color>,
    renders: u64,
}

impl MemController {
    /// The last frame flushed to this controller.
    pub closed spec fn spec_frame(&self) -> Seq<Color> {
        self.frame@
    }

    /// A dark strip of `count` pixels with nothing flushed yet.
    pub fn new(count: usize) -> (c: MemController)
        ensures
            c.spec_led_count() == count as nat,
            c.spec_flushes() == 0,
    {
        MemController {
            frame: vec![Color { red: 0, green: 0, blue: 0, alpha: 0 }; count],
            renders: 0,
        }
    }

    /// Read back the last flushed frame.
    pub fn frame(&self) -> (f: &Vec<Color>)
        ensures
            f@ == self.spec_frame(),
    {
        &self.frame
    }

    /// Read back the flush count.
    pub fn flush_count(&self) -> (n: u64)
        ensures
            n == self.spec_flushes(),
    {
        self.renders
    }
}

impl Controller for MemController {
    closed spec fn spec_led_count(&self) -> nat {
        self.frame@.len()
    }

    closed spec fn spec_flushes(&self) -> u64 {
        self.renders
    }

    fn led_count(&self) -> (n: usize) {
        self.frame.len()
    }

    fn render(&mut self, frame: &Vec<Color>)
        ensures
            final(self).spec_frame() == frame@,
    {
        let f = frame.clone();
        proof {
            assert(f@ =~= frame@);
        }
        self.frame = f;
        self.renders = self.renders.saturating_add(1);
    }
}

/// What one successful render tick does, given the batches drained
/// from the receiver and the clock reading: the buffered records plus
/// the intake are resolved to an active table, composited and blended
/// into the frame, and the buffer is garbage-collected down to the
/// active records.
pub open spec fn tick_outcome(
    pre_msgs: Seq<LedMsg>,
    pre_frame: Seq<Color>,
    cmap: Seq<Color>,
    blend: u8,
    batch: Seq<LedMsg>,
    now: u64,
    post_msgs: Seq<LedMsg>,
    post_frame: Seq<Color>,
) -> bool {
    let m1 = pre_msgs + batch;
    let table = active_table(m1, now);
    &&& all_flatstack(m1, table)
    &&& post_msgs == prune_spec(m1, table, m1.len() as int)
    &&& post_frame == blend_frame(
        pre_frame,
        composite_upto(m1, table, cmap, pre_frame.len(), 256).0,
        blend,
    )
}

/// How many times one tick polls the receiver at most while draining
/// pending batches; transports sit behind small bounded channels, so
/// a tick never finds more than a handful waiting.
pub const INTAKE_POLLS: usize = 256;

/// How long a tick may wait for fresh data when the drain found none
/// pending: just under one frame period at the default rate, so an
/// idle loop wakes in time for its next tick.
pub const IDLE_WAIT_MICROS: u64 = 15_000;

/// The render state: buffered updates, the displayed frame, the
/// palette, and the receiver and controller it runs between.
pub struct Renderer<R: Receiver, C: Controller> {
    recv: R,
    ctl: C,
    leds: Vec<Color>,
    work_buf: Vec<Color>,
    msgs: Vec<LedMsg>,
    /// Smoothing weight: 0 writes frames through; larger values
    /// converge on the target over more ticks.
    pub blend: u8,
    /// The palette updates refer to by color index.
    pub color_map: ColorMap,
    /// Diagnostic verbosity; kept for callers, not read by the core.
    pub verbose: u8,
}

impl<R: Receiver, C: Controller> Renderer<R, C> {
    /// The displayed frame always matches the controller's strip.
    pub closed spec fn wf(&self) -> bool {
        self.leds@.len() == self.ctl.spec_led_count()
    }

    /// The frame as currently displayed.
    pub closed spec fn frame(&self) -> Seq<Color> {
        self.leds@
    }

    /// The buffered element updates.
    pub closed spec fn pending(&self) -> Seq<LedMsg> {
        self.msgs@
    }

    /// The smoothing weight, as a spec value.
    pub closed spec fn smoothing(&self) -> u8 {
        self.blend
    }

    /// The palette, as a spec value.
    pub closed spec fn palette(&self) -> Seq<Color> {
        self.color_map@
    }

    /// The diagnostic verbosity, as a spec value.
    pub closed spec fn verbosity(&self) -> u8 {
        self.verbose
    }

    /// How many frames the controller has flushed so far.
    pub closed spec fn flushes(&self) -> u64 {
        self.ctl.spec_flushes()
    }

    /// A renderer over `recv` and `ctl`, starting from a dim frame,
    /// no buffered updates, write-through blending and the default
    /// palette.
    pub fn new(recv: R, ctl: C) -> (r: Renderer<R, C>)
        ensures
            r.wf(),
            r.smoothing() == 0,
            r.verbosity() == 0,
            r.pending() == Seq::<LedMsg>::empty(),
            r.palette() == crate::color::default_palette(),
            r.flushes() == ctl.spec_flushes(),
            r.frame() == Seq::new(
                ctl.spec_led_count(),
                |i: int| Color { red: 1, green: 1, blue: 1, alpha: 0 },
            ),
    {
        let n = ctl.led_count();
        let leds = vec![Color { red: 1, green: 1, blue: 1, alpha: 0 }; n];
        proof {
            assert(leds@ =~= Seq::new(
                ctl.spec_led_count(),
                |i: int| Color { red: 1, green: 1, blue: 1, alpha: 0 },
            ));
        }
        Renderer {
            recv,
            ctl,
            leds,
            work_buf: Vec::new(),
            msgs: Vec::new(),
            blend: 0,
            color_map: ColorMap::default(),
            verbose: 0,
        }
    }

    /// Set the smoothing weight.
    pub fn set_blend(&mut self, blend: u8)
        ensures
            final(self).smoothing() == blend,
            final(self).frame() == old(self).frame(),
            final(self).pending() == old(self).pending(),
            final(self).palette() == old(self).palette(),
            final(self).verbosity() == old(self).verbosity(),
            final(self).flushes() == old(self).flushes(),
            final(self).wf() == old(self).wf(),
    {
        self.blend = blend;
    }

    /// The displayed frame, one color per physical LED.
    pub fn leds(&self) -> (f: &Vec<Color>)
        ensures
            f@ == self.frame(),
    {
        &self.leds
    }

    /// The buffered element updates, in arrival order.
    pub fn pending_records(&self) -> (m: &Vec<LedMsg>)
        ensures
            m@ == self.pending(),
    {
        &self.msgs
    }

    /// The smoothing weight.
    pub fn blend(&self) -> (b: u8)
        ensures
            b == self.smoothing(),
    {
        self.blend
    }

    /// One render tick: drain the receiver without blocking — waiting
    /// once, briefly, when nothing at all was pending — then resolve
    /// each element's active record, composite the stacked regions
    /// into a frame, blend it toward the displayed one, flush to the
    /// controller only when something changed, and garbage-collect
    /// the buffer. A timeout is no error: it only means no new data
    /// this tick. Fails fast — frame untouched — when an active
    /// record carries an unimplemented command, and propagates any
    /// receiver error that is not a timeout.
    pub fn update_leds(&mut self) -> (r: Result<(), Error>)
        requires
            old(self).wf(),
        ensures
            final(self).wf(),
            final(self).smoothing() == old(self).smoothing(),
            final(self).palette() == old(self).palette(),
            final(self).verbosity() == old(self).verbosity(),
            final(self).frame().len() == old(self).frame().len(),
            match r {
                Ok(_) => {
                    &&& exists|batch: Seq<LedMsg>, now: u64|
                        tick_outcome(
                            old(self).pending(),
                            old(self).frame(),
                            old(self).palette(),
                            old(self).smoothing(),
                            batch,
                            now,
                            final(self).pending(),
                            final(self).frame(),
                        )
                    &&& final(self).frame() != old(self).frame() ==> final(self).flushes()
                        == next_flush_count(old(self).flushes())
                    &&& final(self).frame() == old(self).frame() ==> final(self).flushes()
                        == old(self).flushes()
                },
                Err(e) => {
                    &&& e is Unrecoverable || e is Misc
                    &&& final(self).frame() == old(self).frame()
                    &&& final(self).flushes() == old(self).flushes()
                    &&& exists|batch: Seq<LedMsg>|
                        final(self).pending() == old(self).pending() + batch
                    &&& e is Misc ==> exists|batch: Seq<LedMsg>, now: u64|
                        {
                            &&& final(self).pending() == old(self).pending() + batch
                            &&& !all_flatstack(
                                old(self).pending() + batch,
                                active_table(old(self).pending() + batch, now),
                            )
                        }
                },
            },
    {
        let ghost mut acc: Seq<LedMsg> = Seq::empty();
        proof {
            assert(old(self).msgs@ + acc =~= old(self).msgs@);
        }
        let mut polls: usize = 0;
        let mut got_any = false;
        let mut draining = true;
        while draining
            invariant
                old(self).wf(),
                self.leds == old(self).leds,
                self.ctl == old(self).ctl,
                self.blend == old(self).blend,
                self.color_map == old(self).color_map,
                self.verbose == old(self).verbose,
                self.msgs@ == old(self).msgs@ + acc,
                polls <= INTAKE_POLLS,
            decreases INTAKE_POLLS - polls + (if draining {
                1int
            } else {
                0int
            }),
        {
            if polls >= INTAKE_POLLS {
                draining = false;
            } else {
                match self.recv.try_recv() {
                    Ok(batch) => {
                        let mut b = batch;
                        let ghost bb = b@;
                        self.msgs.append(&mut b);
                        proof {
                            assert((old(self).msgs@ + acc) + bb =~= old(self).msgs@ + (acc + bb));
                            acc = acc + bb;
                        }
                        got_any = true;
                        polls = polls + 1;
                    },
                    Err(e) => {
                        match e {
                            Error::Timeout(_) => {
                                draining = false;
                            },
                            other => {
                                proof {
                                    assert(self.pending() == old(self).pending() + acc);
                                }
                                return Err(other);
                            },
                        }
                    },
                }
            }
        }
        if !got_any {
            // nothing was pending: one bounded wait for fresh data,
            // with a timeout meaning only that this tick has none
            match self.recv.recv_to(IDLE_WAIT_MICROS) {
                Ok(batch) => {
                    let mut b = batch;
                    let ghost bb = b@;
                    self.msgs.append(&mut b);
                    proof {
                        assert((old(self).msgs@ + acc) + bb =~= old(self).msgs@ + (acc + bb));
                        acc = acc + bb;
                    }
                },
                Err(e) => {
                    match e {
                        Error::Timeout(_) => {},
                        other => {
                            proof {
                                assert(self.pending() == old(self).pending() + acc);
                            }
                            return Err(other);
                        },
                    }
                },
            }
        }
        let now = self.recv.cur_time();
        let table = resolve_active(&self.msgs, now);
        let ghost m1 = self.msgs@;
        proof {
            lemma_active_table_ok(m1, now, m1.len() as int);
            assert forall|e: int| 0 <= e < 256 implies ((#[trigger] table@[e]) matches Some(j)
                ==> j < m1.len()) by {
                assert(table_view(table@)[e] == active_table(m1, now)[e]);
                assert(entry_ok(m1, now, m1.len() as int, e, active_table(m1, now)[e]));
            }
        }
        let nleds = self.leds.len();
        let ok = composite(&self.msgs, &table, &self.color_map, nleds, &mut self.work_buf);
        if !ok {
            proof {
                assert(self.pending() == old(self).pending() + acc);
                assert(table_view(table@) == active_table(old(self).pending() + acc, now));
                assert(!all_flatstack(
                    old(self).pending() + acc,
                    active_table(old(self).pending() + acc, now),
                ));
            }
            return Err(
                Error::Misc("an active record carries an unimplemented command".to_string()),
            );
        }
        let changed = blend_into(&mut self.leds, &self.work_buf, self.blend);
        if changed {
            self.ctl.render(&self.leds);
        }
        prune(&mut self.msgs, &table);
        proof {
            let tbl = active_table(m1, now);
            assert(all_flatstack(m1, tbl));
            assert(self.msgs@ == prune_spec(m1, tbl, m1.len() as int));
            assert(m1 == old(self).pending() + acc);
            assert(self.leds@ == blend_frame(
                old(self).frame(),
                composite_upto(m1, tbl, old(self).palette(), old(self).frame().len(), 256).0,
                old(self).smoothing(),
            ));
            assert(tick_outcome(
                old(self).pending(),
                old(self).frame(),
                old(self).palette(),
                old(self).smoothing(),
                acc,
                now,
                self.pending(),
                self.frame(),
            ));
        }
        Ok(())
    }
}

} // verus!
