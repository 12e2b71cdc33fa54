//! How the daemon reacts: to what the screen's server says, to touches and to
//! the passing of time. Times are in nanoseconds from the start.

use crate::client::VisMsg;
use crate::panel;
use crate::panel::clamp_of;
use crate::scan;
use crate::scan::same;
use crate::tuning;
use crate::tuning::env_u32;
use vstd::prelude::*;

verus! {

/// How long a bar that was swiped in stays without a touch.
pub const HIDE_AFTER: u64 = 3_000_000_000;

/// How often the sessions are looked at.
pub const POLL_EVERY: u64 = 1_000_000_000;

/// How often the whole bar is written to the screen.
pub const FULL_BLIT_EVERY: u64 = 1_000_000_000;

/// The bar's height where no knob gives it.
pub const BAR_H: u32 = 64;

/// The bar is no lower than this.
pub const BAR_H_MIN: u32 = 24;

/// The scenes that have the screen to themselves.
pub open spec fn is_swipe_scene(scene: Option<Seq<char>>) -> bool {
    scene == Some("fbhalf"@) || scene == Some("ssbrowse"@)
}

fn swipe_scene(scene: &Option<String>) -> (r: bool)
    ensures
        r == is_swipe_scene(scan::opt_text(*scene)),
{
    match scene {
        Some(s) => same(s.as_str(), "fbhalf") || same(s.as_str(), "ssbrowse"),
        None => false,
    }
}

/// The bar's top and height. The height is the one asked for, moved between the
/// minimum and half the screen; the top moves up to the border of a cell.
pub open spec fn bar_place(
    screen_h: int,
    want: int,
    cell_h: Option<u32>,
) -> (int, int) {
    let y = screen_h - panel::clamped(want, BAR_H_MIN as int, screen_h / 2);
    let top = match cell_h {
        Some(c) => if c > 0 {
            y / (c as int) * c
        } else {
            y
        },
        None => y,
    };
    (top, screen_h - top)
}

/// The bar's top and height on a screen of height `screen_h`; `var` is
/// `TASKVAR_BAR_H`, `cell_h` the height of the terminal's cells if it is known.
pub fn bar_geometry(screen_h: u32, var: Option<&str>, cell_h: Option<u32>) -> (r: (u32, u32))
    requires
        screen_h >= 2 * BAR_H_MIN,
        cell_h != Some(0u32),
    ensures
        (r.0 as int, r.1 as int) == bar_place(
            screen_h as int,
            tuning::u32_or(scan::opt_str(var), BAR_H as int),
            cell_h,
        ),
{
    let want: u32 = env_u32(var, BAR_H);
    let h: u64 = clamp_of(want as u64, BAR_H_MIN as u64, screen_h as u64 / 2);
    let y: u32 = screen_h - h as u32;
    match cell_h {
        Some(c) => {
            assert(0 <= y / c * c <= y) by (nonlinear_arith)
                requires
                    c > 0,
                    y >= 0,
            ;
            let top: u32 = y / c * c;
            (top, screen_h - top)
        },
        None => (y, h as u32),
    }
}

/// The bar ends at the bottom of the screen, is as high as asked for within its
/// bounds, and higher by less than a cell, so that no gap is left below the
/// terminal.
pub proof fn the_bar_meets_the_terminal(screen_h: int, want: int, cell_h: Option<u32>)
    requires
        screen_h >= 2 * BAR_H_MIN,
        cell_h != Some(0u32),
    ensures
        ({
            let (y, h) = bar_place(screen_h, want, cell_h);
            let asked = panel::clamped(want, BAR_H_MIN as int, screen_h / 2);
            &&& y + h == screen_h
            &&& 0 <= y
            &&& BAR_H_MIN <= asked <= h
            &&& cell_h is Some ==> h < asked + cell_h->0
            &&& cell_h is Some ==> y % (cell_h->0 as int) == 0
            &&& cell_h is None ==> h == asked
        }),
{
    let y = screen_h - panel::clamped(want, BAR_H_MIN as int, screen_h / 2);
    match cell_h {
        Some(c) => {
            let c = c as int;
            assert(0 <= y / c * c <= y < y / c * c + c && (y / c * c) % c == 0)
                by (nonlinear_arith)
                requires
                    c > 0,
                    y >= 0,
            ;
        },
        None => {},
    }
}

/// What is done outside when the state changes, in this order.
#[derive(Debug, Clone, Copy, PartialEq, Eq, Structural)]
pub enum Act {
    /// Give the terminal its rows back.
    Widen,
    /// Take the rows below the bar from the terminal.
    Shrink,
    /// Claim the bar's place and draw it.
    Show,
    /// Give the bar's place up and leave it to the scene to fill.
    Leave,
    /// Give the bar's place up and make it black.
    Wipe,
}

/// What a touch leads to.
#[derive(Debug, Clone, Copy, PartialEq, Eq, Structural)]
pub enum Touch {
    /// Nothing.
    Ignore,
    /// The bar is to be brought up to date and shown.
    Reveal,
    /// What lies under the finger is to be acted on.
    Tap,
}

/// What the passing of time leads to.
#[derive(Debug, Clone, Copy, PartialEq, Eq, Structural)]
pub enum Tick {
    /// The bar is to be given up.
    Leave,
    /// The bar is to be brought up to date; `poll` says whether the sessions are
    /// to be looked at too.
    Update { poll: bool },
}

/// What is written to the screen after an update.
#[derive(Debug, Clone, Copy, PartialEq, Eq, Structural)]
pub enum Blit {
    Nothing,
    /// The whole bar.
    Full,
    /// Only what moves: the panel, the assistants.
    Parts { panel: bool, clawd: bool },
}

/// The state of the daemon.
#[derive(Debug, Clone, Copy, PartialEq, Eq, Structural)]
pub struct Daemon {
    /// The server lets the bar be seen.
    pub visible: bool,
    /// A scene has the screen to itself.
    pub swipe_mode: bool,
    pub bar_shown: bool,
    /// When a bar that was swiped in leaves.
    pub hide_at: Option<u64>,
    /// When the sessions were looked at.
    pub last_poll: u64,
    /// When the whole bar was written.
    pub last_full: u64,
}

impl Daemon {
    /// A bar that was swiped in leaves some time, and only such a bar does.
    pub open spec fn wf(self) -> bool {
        &&& self.swipe_mode && self.bar_shown ==> self.hide_at is Some
        &&& !self.swipe_mode ==> self.hide_at is None
    }

    /// Outside such scenes the bar is there exactly while it may be seen.
    pub open spec fn follows(self) -> bool {
        !self.swipe_mode ==> self.bar_shown == self.visible
    }

    /// At first the bar is there.
    pub fn new(now: u64) -> (r: Daemon)
        ensures
            r == (Daemon {
                visible: true,
                swipe_mode: false,
                bar_shown: true,
                hide_at: None,
                last_poll: now,
                last_full: now,
            }),
            r.wf(),
            r.follows(),
    {
        Daemon {
            visible: true,
            swipe_mode: false,
            bar_shown: true,
            hide_at: None,
            last_poll: now,
            last_full: now,
        }
    }

    /// The state with the bar drawn.
    pub open spec fn showing(self, now: u64) -> Daemon {
        Daemon { bar_shown: true, last_full: now, ..self }
    }

    /// The change when the screen is given to a scene or taken back, and what
    /// is done for it.
    pub open spec fn entered(self, swipe: bool, now: u64) -> (Daemon, Seq<Act>) {
        if swipe == self.swipe_mode {
            (self, seq![])
        } else if swipe {
            (
                Daemon { swipe_mode: true, bar_shown: false, hide_at: None, ..self },
                if self.bar_shown {
                    seq![Act::Widen, Act::Leave]
                } else {
                    seq![Act::Widen]
                },
            )
        } else {
            let back = Daemon { swipe_mode: false, hide_at: None, ..self };
            if self.visible && !self.bar_shown {
                (back.showing(now), seq![Act::Shrink, Act::Show])
            } else {
                (back, seq![Act::Shrink])
            }
        }
    }

    /// The change when the bar may or may no longer be seen, and what is done
    /// for it. While a scene has the screen this is only remembered.
    pub open spec fn allowed(self, visible: bool, now: u64) -> (Daemon, Seq<Act>) {
        if self.swipe_mode {
            (Daemon { visible, ..self }, seq![])
        } else if !visible && self.bar_shown {
            (Daemon { visible, bar_shown: false, ..self }, seq![Act::Wipe])
        } else if visible && !self.bar_shown {
            (Daemon { visible, ..self.showing(now) }, seq![Act::Show])
        } else {
            (Daemon { visible, ..self }, seq![])
        }
    }

    /// The change when the server says something, and what is done for it.
    pub open spec fn told(self, scene: Option<Seq<char>>, visible: bool, now: u64) -> (
        Daemon,
        Seq<Act>,
    ) {
        let (mid, first) = self.entered(is_swipe_scene(scene), now);
        let (end, second) = mid.allowed(visible, now);
        (end, first + second)
    }

    /// Takes in what the server says; gives what is to be done.
    pub fn on_visibility(&mut self, msg: &VisMsg, now: u64) -> (r: Vec<Act>)
        requires
            old(self).wf(),
        ensures
            (*final(self), r@) == old(self).told(scan::opt_text(msg.scene), msg.visible, now),
            final(self).wf(),
    {
        let mut acts: Vec<Act> = Vec::new();
        let swipe = swipe_scene(&msg.scene);
        if swipe != self.swipe_mode {
            self.swipe_mode = swipe;
            self.hide_at = None;
            if swipe {
                acts.push(Act::Widen);
                if self.bar_shown {
                    acts.push(Act::Leave);
                    self.bar_shown = false;
                }
            } else {
                acts.push(Act::Shrink);
                if self.visible && !self.bar_shown {
                    acts.push(Act::Show);
                    self.bar_shown = true;
                    self.last_full = now;
                }
            }
        }
        let ghost (mid, first) = old(self).entered(swipe, now);
        assert(*self == mid);
        assert(acts@ =~= first);
        if !self.swipe_mode {
            if !msg.visible && self.bar_shown {
                acts.push(Act::Wipe);
                self.bar_shown = false;
            } else if msg.visible && !self.bar_shown {
                acts.push(Act::Show);
                self.bar_shown = true;
                self.last_full = now;
            }
        }
        self.visible = msg.visible;
        assert(acts@ =~= first + mid.allowed(msg.visible, now).1);
        acts
    }

    /// How long to wait for a touch, in milliseconds: briefly while a bar that
    /// was swiped in may have to leave, not long while the progress bar moves.
    pub fn timeout(&self, np_shown: bool, playing: bool) -> (r: u64)
        ensures
            r == if self.bar_shown && self.swipe_mode {
                200
            } else if self.bar_shown && np_shown && playing {
                500
            } else {
                1000int
            },
    {
        if self.bar_shown && self.swipe_mode {
            200
        } else if self.bar_shown && np_shown && playing {
            500
        } else {
            1000
        }
    }

    /// The change by a touch, and what it leads to. While the bar is away only a
    /// swipe up counts; a touch on a bar that was swiped in keeps it longer, and
    /// a finger that moved does nothing else.
    pub open spec fn touched(self, swiped_up: bool, moved: bool, now: u64) -> (Daemon, Touch) {
        let later = Some((now + HIDE_AFTER) as u64);
        if self.swipe_mode && !self.bar_shown {
            if swiped_up {
                (Daemon { hide_at: later, ..self.showing(now) }, Touch::Reveal)
            } else {
                (self, Touch::Ignore)
            }
        } else {
            (
                if self.swipe_mode {
                    Daemon { hide_at: later, ..self }
                } else {
                    self
                },
                if moved {
                    Touch::Ignore
                } else {
                    Touch::Tap
                },
            )
        }
    }

    /// Takes in a touch; gives what it leads to.
    pub fn on_touch(&mut self, swiped_up: bool, moved: bool, now: u64) -> (r: Touch)
        requires
            old(self).wf(),
            now + HIDE_AFTER <= u64::MAX,
        ensures
            (*final(self), r) == old(self).touched(swiped_up, moved, now),
            final(self).wf(),
    {
        if self.swipe_mode && !self.bar_shown {
            if swiped_up {
                self.bar_shown = true;
                self.last_full = now;
                self.hide_at = Some(now + HIDE_AFTER);
                return Touch::Reveal;
            }
            return Touch::Ignore;
        }
        if self.swipe_mode {
            self.hide_at = Some(now + HIDE_AFTER);
        }
        if moved {
            Touch::Ignore
        } else {
            Touch::Tap
        }
    }

    /// After a tap was acted on: whether the bar is to be written anew.
    pub fn after_tap(&mut self, now: u64) -> (r: bool)
        requires
            old(self).wf(),
        ensures
            r == old(self).bar_shown,
            *final(self) == if r {
                (Daemon { last_full: now, ..*old(self) })
            } else {
                *old(self)
            },
            final(self).wf(),
    {
        if self.bar_shown {
            self.last_full = now;
            true
        } else {
            false
        }
    }

    /// A bar that was swiped in has to leave.
    pub open spec fn expired(self, now: u64) -> bool {
        self.swipe_mode && self.bar_shown && self.hide_at is Some && now >= self.hide_at->0
    }

    /// The sessions are to be looked at again.
    pub open spec fn poll_due(self, now: u64) -> bool {
        now - self.last_poll >= POLL_EVERY
    }

    /// The change when no touch came in time, and what is to be done.
    pub open spec fn ticked(self, now: u64) -> (Daemon, Tick) {
        if self.expired(now) {
            (Daemon { bar_shown: false, hide_at: None, ..self }, Tick::Leave)
        } else if self.poll_due(now) {
            (Daemon { last_poll: now, ..self }, Tick::Update { poll: true })
        } else {
            (self, Tick::Update { poll: false })
        }
    }

    /// When no touch came in time: what is to be done.
    pub fn on_tick(&mut self, now: u64) -> (r: Tick)
        requires
            old(self).wf(),
        ensures
            (*final(self), r) == old(self).ticked(now),
            r == if old(self).expired(now) {
                Tick::Leave
            } else {
                Tick::Update { poll: old(self).poll_due(now) }
            },
            *final(self) == if old(self).expired(now) {
                (Daemon { bar_shown: false, hide_at: None, ..*old(self) })
            } else if old(self).poll_due(now) {
                (Daemon { last_poll: now, ..*old(self) })
            } else {
                *old(self)
            },
            final(self).wf(),
    {
        if self.swipe_mode && self.bar_shown {
            match self.hide_at {
                Some(t) => {
                    if now >= t {
                        self.bar_shown = false;
                        self.hide_at = None;
                        return Tick::Leave;
                    }
                },
                None => {},
            }
        }
        let poll = now >= self.last_poll && now - self.last_poll >= POLL_EVERY;
        if poll {
            self.last_poll = now;
        }
        Tick::Update { poll }
    }

    /// The whole bar is to be written again.
    pub open spec fn full_due(self, now: u64) -> bool {
        now - self.last_full >= FULL_BLIT_EVERY
    }

    /// The change after an update, and what is to be written to the screen. Now
    /// and then it is the whole bar, in case something was drawn over it; in
    /// between it is only what moves.
    pub open spec fn written(self, np_shown: bool, clawd_shown: bool, now: u64) -> (Daemon, Blit) {
        if !self.bar_shown {
            (self, Blit::Nothing)
        } else if self.full_due(now) {
            (Daemon { last_full: now, ..self }, Blit::Full)
        } else {
            (self, Blit::Parts { panel: np_shown, clawd: clawd_shown })
        }
    }

    /// After an update: what is to be written to the screen.
    pub fn after_tick(&mut self, np_shown: bool, clawd_shown: bool, now: u64) -> (r: Blit)
        requires
            old(self).wf(),
        ensures
            (*final(self), r) == old(self).written(np_shown, clawd_shown, now),
            final(self).wf(),
    {
        if !self.bar_shown {
            return Blit::Nothing;
        }
        if now >= self.last_full && now - self.last_full >= FULL_BLIT_EVERY {
            self.last_full = now;
            return Blit::Full;
        }
        Blit::Parts { panel: np_shown, clawd: clawd_shown }
    }
}

/// The bar is drawn and given up exactly when its being there changes, and the
/// terminal is widened and shrunk exactly when a scene gets the screen and
/// gives it back.
pub proof fn acts_match_the_change(
    d: Daemon,
    scene: Option<Seq<char>>,
    visible: bool,
    now: u64,
)
    ensures
        ({
            let (e, acts) = d.told(scene, visible, now);
            &&& acts.contains(Act::Widen) <==> !d.swipe_mode && e.swipe_mode
            &&& acts.contains(Act::Shrink) <==> d.swipe_mode && !e.swipe_mode
            &&& e.swipe_mode == is_swipe_scene(scene)
            &&& !d.bar_shown && e.bar_shown ==> acts.contains(Act::Show)
            &&& d.bar_shown && !e.bar_shown ==> acts.contains(Act::Leave) || acts.contains(
                Act::Wipe,
            )
            &&& e.swipe_mode ==> !acts.contains(Act::Wipe) && !acts.contains(Act::Show)
        }),
{
    let swipe = is_swipe_scene(scene);
    let (mid, first) = d.entered(swipe, now);
    let (end, second) = mid.allowed(visible, now);
    let acts = first + second;
    assert forall|a: Act| acts.contains(a) <==> first.contains(a) || second.contains(a) by {
        if first.contains(a) {
            let k = choose|k: int| 0 <= k < first.len() && first[k] == a;
            assert(acts[k] == a);
        }
        if second.contains(a) {
            let k = choose|k: int| 0 <= k < second.len() && second[k] == a;
            assert(acts[first.len() + k] == a);
        }
    }
    if swipe != d.swipe_mode {
        assert(first[0] == if swipe {
            Act::Widen
        } else {
            Act::Shrink
        });
        if first.len() == 2 {
            assert(first[1] == if swipe {
                Act::Leave
            } else {
                Act::Show
            });
        }
    }
    if second.len() == 1 {
        assert(second[0] == Act::Wipe || second[0] == Act::Show);
    }
}

/// After every message, outside such scenes the bar is there exactly if it may
/// be seen, whatever was before; so a bar that was swiped in and may not be seen
/// leaves when the scene ends.
pub proof fn the_bar_follows_the_server(
    d: Daemon,
    scene: Option<Seq<char>>,
    visible: bool,
    now: u64,
)
    ensures
        ({
            let (e, acts) = d.told(scene, visible, now);
            &&& e.follows()
            &&& e.visible == visible
            &&& d.bar_shown && !visible && !is_swipe_scene(scene) ==> acts.contains(Act::Wipe)
        }),
{
    let (mid, first) = d.entered(is_swipe_scene(scene), now);
    if d.bar_shown && !visible && !is_swipe_scene(scene) {
        let acts = d.told(scene, visible, now).1;
        assert(acts[first.len() as int] == Act::Wipe);
    }
}

/// When a scene gets the screen, the bar is away, and only a swipe up brings it
/// back.
pub proof fn a_scene_gets_the_whole_screen(
    d: Daemon,
    scene: Option<Seq<char>>,
    visible: bool,
    now: u64,
    moved: bool,
    later: u64,
)
    requires
        !d.swipe_mode,
        is_swipe_scene(scene),
    ensures
        ({
            let e = d.told(scene, visible, now).0;
            &&& e.swipe_mode
            &&& !e.bar_shown
            &&& e.touched(false, moved, later) == (e, Touch::Ignore)
            &&& e.touched(true, moved, later).0.bar_shown
        }),
{
}

/// A bar that was swiped in stays for its time and then leaves, and each touch
/// makes the time start again.
pub proof fn a_swiped_bar_leaves_in_time(d: Daemon, moved: bool, touch: u64, now: u64)
    requires
        d.wf(),
        d.swipe_mode,
        touch + HIDE_AFTER <= u64::MAX,
    ensures
        ({
            let e = d.touched(true, moved, touch).0;
            &&& e.bar_shown
            &&& e.expired(now) <==> now >= touch + HIDE_AFTER
        }),
{
}

/// After every update the whole bar has been written within the last second, so
/// that it comes back soon if something was drawn over it.
pub proof fn the_bar_comes_back_within_a_second(
    d: Daemon,
    np_shown: bool,
    clawd_shown: bool,
    now: u64,
)
    requires
        d.bar_shown,
    ensures
        now - d.written(np_shown, clawd_shown, now).0.last_full < FULL_BLIT_EVERY,
{
}

/// Two scenes have the screen to themselves; no other has, nor has none.
pub proof fn two_scenes_have_the_screen(scene: Seq<char>)
    ensures
        is_swipe_scene(Some(scene)) <==> scene == "fbhalf"@ || scene == "ssbrowse"@,
        !is_swipe_scene(None),
{
}

/// A message that says what the last one said changes nothing more and leads to
/// nothing.
pub proof fn a_repeated_message_does_nothing(
    d: Daemon,
    scene: Option<Seq<char>>,
    visible: bool,
    now: u64,
    later: u64,
)
    ensures
        ({
            let e = d.told(scene, visible, now).0;
            e.told(scene, visible, later) == (e, Seq::<Act>::empty())
        }),
{
    let e = d.told(scene, visible, now).0;
    assert(e.told(scene, visible, later).1 =~= Seq::<Act>::empty());
}

/// What the server says of the bar: when a scene gets the screen, the terminal is
/// widened and the bar leaves it to the scene; when it gives the screen back, the
/// terminal is shrunk and the bar drawn if it may be seen. While a scene has the
/// screen nothing is drawn or wiped; at other times the bar is drawn when it may
/// be seen again and wiped when it may not.
pub proof fn messages_lead_to_acts(d: Daemon, scene: Option<Seq<char>>, visible: bool, now: u64)
    requires
        d.wf(),
        d.follows(),
    ensures
        ({
            let (e, acts) = d.told(scene, visible, now);
            let swipe = is_swipe_scene(scene);
            &&& !d.swipe_mode && swipe && d.bar_shown ==> acts == seq![Act::Widen, Act::Leave]
            &&& !d.swipe_mode && swipe && !d.bar_shown ==> acts == seq![Act::Widen]
            &&& d.swipe_mode && swipe ==> acts.len() == 0 && e.bar_shown == d.bar_shown
            &&& d.swipe_mode && !swipe && visible && d.visible && !d.bar_shown ==> acts == seq![
                Act::Shrink,
                Act::Show,
            ]
            &&& d.swipe_mode && !swipe && visible && d.bar_shown ==> acts == seq![Act::Shrink]
            &&& !d.swipe_mode && !swipe && d.visible && !visible ==> acts == seq![Act::Wipe]
            &&& !d.swipe_mode && !swipe && !d.visible && visible ==> acts == seq![Act::Show]
            &&& !d.swipe_mode && !swipe && d.visible == visible ==> acts.len() == 0
            &&& e.last_poll == d.last_poll
            &&& e.last_full == d.last_full || e.last_full == now
            &&& acts.contains(Act::Show) ==> e.last_full == now
            &&& !swipe ==> e.hide_at is None
            &&& !d.swipe_mode && swipe ==> e.hide_at is None
        }),
{
    let (e, acts) = d.told(scene, visible, now);
    let swipe = is_swipe_scene(scene);
    let (mid, first) = d.entered(swipe, now);
    let (end, second) = mid.allowed(visible, now);
    assert(acts == first + second);
    assert(first.len() == 0 ==> acts =~= second);
    assert(second.len() == 0 ==> acts =~= first);
    if acts.contains(Act::Show) {
        let k = choose|k: int| 0 <= k < acts.len() && acts[k] == Act::Show;
        assert(acts[k] == if k < first.len() {
            first[k]
        } else {
            second[k - first.len()]
        });
    }
}

/// While the bar is away during a scene only a swipe up counts: it brings the bar
/// for three seconds. A touch on that bar makes the three seconds start again;
/// outside such scenes a touch changes nothing. What lies under the finger is
/// acted on unless the finger moved.
pub proof fn touches_keep_the_bar(d: Daemon, swiped_up: bool, moved: bool, now: u64)
    requires
        now + 3_000_000_000 <= u64::MAX,
    ensures
        ({
            let (e, t) = d.touched(swiped_up, moved, now);
            let away = d.swipe_mode && !d.bar_shown;
            &&& t == Touch::Reveal <==> away && swiped_up
            &&& t == Touch::Tap <==> !away && !moved
            &&& away && !swiped_up ==> e == d
            &&& away && swiped_up ==> e.bar_shown && e.last_full == now
            &&& !d.swipe_mode ==> e == d
            &&& d.swipe_mode && (d.bar_shown || swiped_up) ==> e.hide_at == Some(
                (now + 3_000_000_000) as u64,
            )
            &&& !away ==> e.bar_shown == d.bar_shown && e.last_full == d.last_full
            &&& e.visible == d.visible && e.swipe_mode == d.swipe_mode && e.last_poll
                == d.last_poll
        }),
{
}

/// As time passes, a bar that was swiped in leaves when its time has come, and is
/// then away with nothing to wait for. Otherwise the sessions are looked at once
/// a second, and nothing else changes.
pub proof fn time_takes_the_bar_away(d: Daemon, now: u64)
    ensures
        ({
            let (e, t) = d.ticked(now);
            let over = d.swipe_mode && d.bar_shown && d.hide_at is Some && now >= d.hide_at->0;
            &&& t == Tick::Leave <==> over
            &&& over ==> !e.bar_shown && e.hide_at is None && e.last_poll == d.last_poll
            &&& !over ==> e.bar_shown == d.bar_shown && e.hide_at == d.hide_at
            &&& !over && now >= d.last_poll + 1_000_000_000 ==> t == Tick::Update { poll: true }
                && e.last_poll == now
            &&& !over && now < d.last_poll + 1_000_000_000 ==> t == Tick::Update { poll: false }
                && e == d
            &&& e.visible == d.visible && e.swipe_mode == d.swipe_mode && e.last_full
                == d.last_full
        }),
{
}

/// A bar that is away is not written. One that is there is written whole if it was
/// not for a second, and otherwise only those parts that are shown and move.
pub proof fn a_shown_bar_is_written(d: Daemon, np_shown: bool, clawd_shown: bool, now: u64)
    ensures
        ({
            let (e, b) = d.written(np_shown, clawd_shown, now);
            let due = now >= d.last_full + 1_000_000_000;
            &&& b == Blit::Nothing <==> !d.bar_shown
            &&& b == Blit::Full <==> d.bar_shown && due
            &&& d.bar_shown && !due ==> b == (Blit::Parts { panel: np_shown, clawd: clawd_shown })
            &&& e.last_full == if d.bar_shown && due {
                now
            } else {
                d.last_full
            }
            &&& e == (Daemon { last_full: e.last_full, ..d })
        }),
{
}

/// Without cells the bar is as high as asked for, from twenty-four pixels to half
/// the screen; with cells its top moves up to the border of one.
pub proof fn the_bar_is_as_high_as_asked(screen_h: int, want: int, c: u32)
    requires
        screen_h >= 48,
        c > 0,
    ensures
        24 <= want <= screen_h / 2 ==> bar_place(screen_h, want, None) == (screen_h - want, want),
        want < 24 ==> bar_place(screen_h, want, None) == (screen_h - 24, 24int),
        want > screen_h / 2 ==> bar_place(screen_h, want, None) == (
            screen_h - screen_h / 2,
            screen_h / 2,
        ),
        bar_place(screen_h, want, Some(c)).0 <= bar_place(screen_h, want, None).0
            < bar_place(screen_h, want, Some(c)).0 + c,
        bar_place(screen_h, want, Some(c)).0 % (c as int) == 0,
        bar_place(screen_h, want, Some(c)).0 + bar_place(screen_h, want, Some(c)).1 == screen_h,
{
    the_bar_meets_the_terminal(screen_h, want, Some(c));
}

/// When a scene gives the screen back, the bar that was away comes if it may be
/// seen, whatever was said before; one that may not be seen is wiped if it was
/// there or would have come.
pub proof fn the_end_of_a_scene_decides_on_the_bar(
    d: Daemon,
    scene: Option<Seq<char>>,
    visible: bool,
    now: u64,
)
    requires
        d.wf(),
        d.swipe_mode,
        !is_swipe_scene(scene),
    ensures
        ({
            let (e, acts) = d.told(scene, visible, now);
            &&& e.bar_shown == visible
            &&& visible && !d.bar_shown ==> acts == seq![Act::Shrink, Act::Show] && e.last_full
                == now
            &&& visible && d.bar_shown ==> acts == seq![Act::Shrink] && e.last_full
                == d.last_full
            &&& !visible && d.bar_shown ==> acts == seq![Act::Shrink, Act::Wipe]
            &&& !visible && !d.bar_shown && d.visible ==> acts == seq![
                Act::Shrink,
                Act::Show,
                Act::Wipe,
            ]
            &&& !visible && !d.bar_shown && !d.visible ==> acts == seq![Act::Shrink]
            &&& e.hide_at is None && !e.swipe_mode && e.visible == visible
        }),
{
    let (mid, first) = d.entered(false, now);
    let (end, second) = mid.allowed(visible, now);
    let acts = d.told(scene, visible, now).1;
    assert(acts == first + second);
    assert(second.len() == 0 ==> acts =~= first);
}

} // verus!
