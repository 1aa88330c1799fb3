//! Small runtime helpers: tick timers, timed despawn, text fades, music
//! markers, the screen states, and the saved-scene bookkeeping.

use vstd::prelude::*;
use vstd::string::*;

verus! {

/// A one-shot timer over integer milliseconds: it accumulates elapsed time
/// up to its duration and reports the tick on which it finishes.
#[derive(Clone, Copy, PartialEq, Eq, Structural, Debug)]
pub struct TickTimer {
    pub duration_ms: u64,
    pub elapsed_ms: u64,
}

/// The elapsed time after a tick: advanced by the delta, capped at the
/// duration.
pub open spec fn spec_tick_elapsed(t: TickTimer, delta_ms: u64) -> u64 {
    if t.elapsed_ms + delta_ms >= t.duration_ms {
        t.duration_ms
    } else {
        (t.elapsed_ms + delta_ms) as u64
    }
}

/// Whether a tick of `delta_ms` makes the timer finish just now.
pub open spec fn spec_just_finished(t: TickTimer, delta_ms: u64) -> bool {
    t.elapsed_ms < t.duration_ms && t.elapsed_ms + delta_ms >= t.duration_ms
}

impl TickTimer {
    /// A timer never runs past its duration.
    pub open spec fn wf(&self) -> bool {
        self.elapsed_ms <= self.duration_ms
    }

    /// A fresh timer that will run for `duration_ms`.
    pub fn new(duration_ms: u64) -> (r: TickTimer)
        ensures
            r == (TickTimer { duration_ms, elapsed_ms: 0 }),
    {
        TickTimer { duration_ms, elapsed_ms: 0 }
    }

    /// Advances the timer and reports whether it finished on this tick —
    /// true on at most one tick of the timer's life.
    pub fn tick(&mut self, delta_ms: u64) -> (just_finished: bool)
        ensures
            final(self).duration_ms == old(self).duration_ms,
            final(self).elapsed_ms == spec_tick_elapsed(*old(self), delta_ms),
            just_finished == spec_just_finished(*old(self), delta_ms),
    {
        let before = self.elapsed_ms;
        let advanced = if delta_ms > u64::MAX - self.elapsed_ms {
            u64::MAX
        } else {
            self.elapsed_ms + delta_ms
        };
        self.elapsed_ms = if advanced >= self.duration_ms {
            self.duration_ms
        } else {
            advanced
        };
        before < self.duration_ms && self.elapsed_ms == self.duration_ms
    }

    /// How much of the timer has elapsed, in thousandths; a zero-length
    /// timer counts as finished.
    pub fn fraction_permille(&self) -> (r: u64)
        requires
            self.wf(),
        ensures
            self.duration_ms == 0 ==> r == 1000,
            self.duration_ms > 0 ==> r == self.elapsed_ms as int * 1000 / self.duration_ms as int,
    {
        if self.duration_ms == 0 {
            1000
        } else {
            let wide = (self.elapsed_ms as u128) * 1000 / (self.duration_ms as u128);
            proof {
                assert(self.elapsed_ms as int * 1000 / self.duration_ms as int <= 1000)
                    by (nonlinear_arith)
                    requires
                        self.duration_ms > 0,
                        self.elapsed_ms <= self.duration_ms,
                ;
            }
            wide as u64
        }
    }
}

/// Despawns its entity once its timer runs out.
#[derive(Clone, Copy, PartialEq, Eq, Structural, Debug)]
pub struct DespawnAfter(pub TickTimer);

impl DespawnAfter {
    /// Despawn after `duration_ms` of game time.
    pub fn new(duration_ms: u64) -> (r: DespawnAfter)
        ensures
            r.0 == (TickTimer { duration_ms, elapsed_ms: 0 }),
    {
        DespawnAfter(TickTimer::new(duration_ms))
    }
}

/// The timed entities that remain after one despawn pass: everything whose
/// timer did not finish this tick, its timer advanced.
pub open spec fn spec_despawn_survivors(items: Seq<(u32, DespawnAfter)>, delta_ms: u64) -> Seq<
    (u32, DespawnAfter),
> {
    items.filter(|e: (u32, DespawnAfter)| !spec_just_finished(e.1.0, delta_ms)).map_values(
        |e: (u32, DespawnAfter)|
            (e.0, DespawnAfter(TickTimer { elapsed_ms: spec_tick_elapsed(e.1.0, delta_ms), ..e.1.0 })),
    )
}

/// Advances every timed entity by one tick and despawns the ones whose
/// timer just ran out: they leave the list, and their ids are returned in
/// order.
#[verifier::loop_isolation(false)]
pub fn despawn_after(items: &mut Vec<(u32, DespawnAfter)>, delta_ms: u64) -> (despawned: Vec<u32>)
    ensures
        final(items)@ == spec_despawn_survivors(old(items)@, delta_ms),
        despawned@ == old(items)@.filter(
            |e: (u32, DespawnAfter)| spec_just_finished(e.1.0, delta_ms),
        ).map_values(|e: (u32, DespawnAfter)| e.0),
{
    let ghost src = items@;
    let mut kept: Vec<(u32, DespawnAfter)> = Vec::new();
    let mut gone: Vec<u32> = Vec::new();
    proof {
        assert(src.take(0) =~= Seq::<(u32, DespawnAfter)>::empty());
        assert(kept@ =~= spec_despawn_survivors(src.take(0), delta_ms));
        assert(gone@ =~= src.take(0).filter(
            |e: (u32, DespawnAfter)| spec_just_finished(e.1.0, delta_ms),
        ).map_values(|e: (u32, DespawnAfter)| e.0));
    }
    let mut i: usize = 0;
    while i < items.len()
        invariant
            0 <= i <= items@.len(),
            items@ == src,
            kept@ == spec_despawn_survivors(src.take(i as int), delta_ms),
            gone@ == src.take(i as int).filter(
                |e: (u32, DespawnAfter)| spec_just_finished(e.1.0, delta_ms),
            ).map_values(|e: (u32, DespawnAfter)| e.0),
        decreases items@.len() - i,
    {
        proof {
            assert(src.take(i as int + 1).drop_last() =~= src.take(i as int));
            assert(src.take(i as int + 1).last() == src[i as int]);
            reveal_with_fuel(Seq::filter, 2);
        }
        let (id, mut d) = items[i];
        let finished = d.0.tick(delta_ms);
        if finished {
            gone.push(id);
        } else {
            kept.push((id, d));
        }
        proof {
            assert(kept@ =~= spec_despawn_survivors(src.take(i as int + 1), delta_ms));
            assert(gone@ =~= src.take(i as int + 1).filter(
                |e: (u32, DespawnAfter)| spec_just_finished(e.1.0, delta_ms),
            ).map_values(|e: (u32, DespawnAfter)| e.0));
        }
        i += 1;
    }
    proof {
        assert(src.take(src.len() as int) =~= src);
    }
    *items = kept;
    gone
}

/// Which way a text fade runs.
#[derive(Clone, Copy, PartialEq, Eq, Structural, Debug)]
pub enum FadeMode {
    In,
    Out,
}

/// A timed fade on a text's alpha channel.
#[derive(Clone, Copy, PartialEq, Eq, Structural, Debug)]
pub struct Fade {
    pub mode: FadeMode,
    pub timer: TickTimer,
}

impl Fade {
    /// A fade running the given way for `duration_ms`.
    pub fn new(mode: FadeMode, duration_ms: u64) -> (r: Fade)
        ensures
            r.mode == mode,
            r.timer == (TickTimer { duration_ms, elapsed_ms: 0 }),
    {
        Fade { mode, timer: TickTimer::new(duration_ms) }
    }

    /// The runtime state a fade expands to when attached: a fade-out also
    /// despawns its entity once it completes, a fade-in does not.
    pub fn despawn_after(&self) -> (r: Option<DespawnAfter>)
        ensures
            self.mode is Out ==> r == Some(
                DespawnAfter(TickTimer { duration_ms: self.timer.duration_ms, elapsed_ms: 0 }),
            ),
            self.mode is In ==> r is None,
    {
        match self.mode {
            FadeMode::Out => Some(DespawnAfter::new(self.timer.duration_ms)),
            FadeMode::In => None,
        }
    }
}

/// The alpha a fade shows after its timer reaches the given fraction: the
/// fraction itself fading in, its complement fading out.
pub open spec fn spec_fade_alpha(mode: FadeMode, fraction: u64) -> u64 {
    match mode {
        FadeMode::In => fraction,
        FadeMode::Out => (1000 - fraction) as u64,
    }
}

/// Advances every fade by one tick and returns the alpha (in thousandths)
/// each faded text shows now.
#[verifier::loop_isolation(false)]
pub fn fade_text(fades: &mut Vec<Fade>, delta_ms: u64) -> (alphas: Vec<u64>)
    ensures
        final(fades)@.len() == old(fades)@.len(),
        alphas@.len() == old(fades)@.len(),
        forall|i: int|
            0 <= i < old(fades)@.len() ==> {
                let t0 = (#[trigger] old(fades)@[i]).timer;
                let t1 = TickTimer { elapsed_ms: spec_tick_elapsed(t0, delta_ms), ..t0 };
                &&& final(fades)@[i] == (Fade { mode: old(fades)@[i].mode, timer: t1 })
                &&& t1.duration_ms > 0 ==> alphas@[i] == spec_fade_alpha(
                    old(fades)@[i].mode,
                    (t1.elapsed_ms as int * 1000 / t1.duration_ms as int) as u64,
                )
                &&& t1.duration_ms == 0 ==> alphas@[i] == spec_fade_alpha(
                    old(fades)@[i].mode,
                    1000,
                )
            },
{
    let mut alphas: Vec<u64> = Vec::new();
    let mut i: usize = 0;
    while i < fades.len()
        invariant
            0 <= i <= fades@.len(),
            fades@.len() == old(fades)@.len(),
            alphas@.len() == i,
            forall|j: int| i <= j < fades@.len() ==> fades@[j] == old(fades)@[j],
            forall|j: int|
                0 <= j < i ==> {
                    let t0 = (#[trigger] old(fades)@[j]).timer;
                    let t1 = TickTimer { elapsed_ms: spec_tick_elapsed(t0, delta_ms), ..t0 };
                    &&& fades@[j] == (Fade { mode: old(fades)@[j].mode, timer: t1 })
                    &&& t1.duration_ms > 0 ==> alphas@[j] == spec_fade_alpha(
                        old(fades)@[j].mode,
                        (t1.elapsed_ms as int * 1000 / t1.duration_ms as int) as u64,
                    )
                    &&& t1.duration_ms == 0 ==> alphas@[j] == spec_fade_alpha(
                        old(fades)@[j].mode,
                        1000,
                    )
                },
        decreases fades@.len() - i,
    {
        let mut f = fades[i];
        f.timer.tick(delta_ms);
        let fraction = f.timer.fraction_permille();
        proof {
            assert(fraction <= 1000) by (nonlinear_arith)
                requires
                    f.timer.duration_ms > 0 ==> fraction == f.timer.elapsed_ms as int * 1000
                        / f.timer.duration_ms as int,
                    f.timer.duration_ms == 0 ==> fraction == 1000,
                    f.timer.elapsed_ms <= f.timer.duration_ms,
            ;
        }
        let alpha = match f.mode {
            FadeMode::In => fraction,
            FadeMode::Out => 1000 - fraction,
        };
        vstd::pervasive::VecAdditionalExecFns::set(&mut *fades, i, f);
        alphas.push(alpha);
        i += 1;
    }
    alphas
}

/// Background music attached to a level entity, loaded from a path.
#[derive(Clone, Debug)]
pub struct MusicMarker {
    pub asset_path: String,
}

impl MusicMarker {
    /// Music loaded from the given asset path.
    pub fn new(asset_path: String) -> (r: MusicMarker)
        ensures
            r.asset_path@ == asset_path@,
    {
        MusicMarker { asset_path }
    }
}

/// The game's main screen states.
#[derive(Clone, Copy, PartialEq, Eq, Structural, Debug)]
pub enum Screen {
    Splash,
    Title,
    Loading,
    Gameplay,
    GameOver,
}

/// Where play continues once the player leaves the title screen: straight
/// to gameplay when every asset is ready, else through the loading screen
/// until they are.
pub fn enter_loading_or_gameplay_screen(all_loaded: bool) -> (r: Screen)
    ensures
        all_loaded ==> r is Gameplay,
        !all_loaded ==> r is Loading,
{
    if all_loaded {
        Screen::Gameplay
    } else {
        Screen::Loading
    }
}

/// Bookkeeping for the saved game scene: the path a previous save was found
/// under, if any, and whether saving is skipped on the next exit (as when
/// switching levels).
#[derive(Clone, Debug)]
pub struct GameSceneStorage {
    pub handle: Option<String>,
    pub skip_save: bool,
}

/// The file the game scene is saved to.
pub fn scene_file_path() -> (r: String)
    ensures
        r@ == "assets/game_state.scn.ron"@,
{
    String::from_str("assets/game_state.scn.ron")
}

} // verus!
