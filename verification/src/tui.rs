//! The state of the screen between two samples: what keys do to it, how long to
//! wait, and when to sample and to draw.
use vstd::prelude::*;

use crate::cli::{lemma_bounds, LONGEST_INTERVAL, SHORTEST_INTERVAL};
use crate::double::{lemma_order, Double};
use crate::scaling::{lemma_grown, lemma_shrunk};

verus! {

/// The bits of the shortest wait, two hundredths of a second.
pub const SHORTEST_WAIT: u64 = 0x3F94_7AE1_47AE_147B;

/// The bits of an hour in seconds, for which a paused screen waits.
pub const HOUR: u64 = 0x40AC_2000_0000_0000;

#[derive(Clone, Copy, Debug, PartialEq, Eq, Structural)]
pub enum Key {
    Char(char),
    Esc,
    Other,
}

#[derive(Clone, Copy, Debug, PartialEq, Eq, Structural)]
pub enum Input {
    Pressed(Key),
    Resized,
    Other,
}

/// What is to be done on an input.
#[derive(Clone, Copy, Debug, PartialEq, Eq, Structural)]
pub enum Effect {
    Nothing,
    Quit,
    StartLog,
    StopLog,
}

#[derive(Clone, Copy, Debug, PartialEq, Eq, Structural)]
pub struct Tui {
    pub interval: Double,
    pub paused: bool,
    pub logging: bool,
    /// Whether the screen has to be drawn.
    pub dirty: bool,
}

/// Whether the key makes the interval longer.
pub open spec fn is_longer(key: Key) -> bool {
    key == Key::Char('+') || key == Key::Char('=')
}

/// Whether the key makes the interval shorter.
pub open spec fn is_shorter(key: Key) -> bool {
    key == Key::Char('-') || key == Key::Char('_')
}

pub open spec fn is_quit(key: Key) -> bool {
    key == Key::Char('q') || key == Key::Esc
}

impl Tui {
    /// Whether the interval is within its bounds.
    pub open spec fn wf(self) -> bool {
        &&& (Double { bits: SHORTEST_INTERVAL }).at_most(self.interval)
        &&& self.interval.at_most(Double { bits: LONGEST_INTERVAL })
    }

    /// The state after a key.
    pub open spec fn after_key(self, key: Key) -> Tui {
        if is_quit(key) {
            self
        } else if key == Key::Char(' ') {
            Tui { paused: !self.paused, dirty: true, ..self }
        } else if key == Key::Char('l') {
            Tui { logging: !self.logging, dirty: true, ..self }
        } else if is_longer(key) {
            Tui {
                interval: self.interval.grown().smaller(Double { bits: LONGEST_INTERVAL }),
                dirty: true,
                ..self
            }
        } else if is_shorter(key) {
            Tui {
                interval: self.interval.shrunk().larger(Double { bits: SHORTEST_INTERVAL }),
                dirty: true,
                ..self
            }
        } else {
            Tui { dirty: true, ..self }
        }
    }

    /// The state after an input.
    pub open spec fn after(self, input: Input) -> Tui {
        match input {
            Input::Pressed(key) => self.after_key(key),
            Input::Resized => Tui { dirty: true, ..self },
            Input::Other => self,
        }
    }

    pub open spec fn effect(self, key: Key) -> Effect {
        if is_quit(key) {
            Effect::Quit
        } else if key == Key::Char('l') {
            if self.logging {
                Effect::StopLog
            } else {
                Effect::StartLog
            }
        } else {
            Effect::Nothing
        }
    }

    /// The state at the start.
    pub open spec fn start(interval: Double) -> Tui {
        Tui { interval, paused: false, logging: false, dirty: true }
    }

    pub fn new(interval: Double) -> (r: Tui)
        requires
            Tui::start(interval).wf(),
        ensures
            r == Tui::start(interval),
    {
        Tui { interval, paused: false, logging: false, dirty: true }
    }

    /// Takes an input, and says what is to be done on it.
    pub fn handle(&mut self, input: Input) -> (r: Effect)
        requires
            old(self).wf(),
        ensures
            final(self).wf(),
            *final(self) == old(self).after(input),
            r == (match input {
                Input::Pressed(key) => old(self).effect(key),
                _ => Effect::Nothing,
            }),
    {
        proof {
            lemma_ordinary(*self);
            lemma_interval_stays_held(*self, input);
        }
        match input {
            Input::Pressed(key) => {
                let mut effect = Effect::Nothing;
                match key {
                    Key::Char(c) => {
                        if c == 'q' {
                            return Effect::Quit;
                        } else if c == ' ' {
                            self.paused = !self.paused;
                        } else if c == 'l' {
                            effect = if self.logging {
                                Effect::StopLog
                            } else {
                                Effect::StartLog
                            };
                            self.logging = !self.logging;
                        } else if c == '+' || c == '=' {
                            self.interval = self.interval.grow().min(Double { bits: LONGEST_INTERVAL });
                        } else if c == '-' || c == '_' {
                            self.interval = self.interval.shrink().max(Double { bits: SHORTEST_INTERVAL });
                        }
                    },
                    Key::Esc => {
                        return Effect::Quit;
                    },
                    Key::Other => {},
                }
                self.dirty = true;
                effect
            },
            Input::Resized => {
                self.dirty = true;
                Effect::Nothing
            },
            Input::Other => Effect::Nothing,
        }
    }

    /// How long to wait for an input, in seconds; `remain` is the time until the
    /// next sample.
    pub open spec fn wait(self, remain: Double) -> Double {
        if self.paused {
            Double { bits: HOUR }
        } else {
            remain.clamped(Double { bits: SHORTEST_WAIT }, self.interval)
        }
    }

    pub fn timeout(&self, remain: Double) -> (r: Double)
        ensures
            r == self.wait(remain),
    {
        if self.paused {
            Double { bits: HOUR }
        } else {
            remain.clamp(Double { bits: SHORTEST_WAIT }, self.interval)
        }
    }

    /// Whether the interval has passed, and sampling is not held.
    pub open spec fn is_due(self, elapsed: Double) -> bool {
        !self.paused && self.interval.at_most(elapsed)
    }

    /// Whether a sample is due so long after the last one.
    pub fn due(&self, elapsed: Double) -> (r: bool)
        ensures
            r == (!self.paused && self.interval.at_most(elapsed)),
            r == self.is_due(elapsed),
    {
        !self.paused && self.interval.le(elapsed)
    }

    /// There is a new sample.
    pub fn sampled(&mut self)
        ensures
            *final(self) == (Tui { dirty: true, ..*old(self) }),
    {
        self.dirty = true;
    }

    /// Whether the screen has to be drawn, which is once after a change.
    pub fn take_dirty(&mut self) -> (r: bool)
        ensures
            r == old(self).dirty,
            *final(self) == (Tui { dirty: false, ..*old(self) }),
    {
        let r = self.dirty;
        self.dirty = false;
        r
    }
}

/// An interval within its bounds is neither too small nor too large to be made
/// longer or shorter.
proof fn lemma_ordinary(t: Tui)
    requires
        t.wf(),
    ensures
        t.interval.ordinary(),
{
    lemma_order(SHORTEST_INTERVAL as nat, 0);
    lemma_order(t.interval.low(), SHORTEST_INTERVAL as nat);
    lemma_order(LONGEST_INTERVAL as nat, t.interval.low());
}

/// No input takes the interval out of its bounds. The keys for a longer one make
/// it one and a half times as long, rounded to the nearest number, or the longest
/// there is, and never shorter. The keys for a shorter one divide it by one and a
/// half, rounded to the nearest number, or make it the shortest there is, and
/// never longer. No other input changes it.
pub proof fn lemma_interval_stays_held(t: Tui, input: Input)
    requires
        t.wf(),
    ensures
        t.after(input).wf(),
        match input {
            Input::Pressed(key) => if is_longer(key) {
                &&& t.interval.grown().nearest(3 * t.interval.scaled(), 2)
                &&& t.after(input).interval == t.interval.grown().smaller(
                    Double { bits: LONGEST_INTERVAL },
                )
                &&& t.interval.at_most(t.after(input).interval)
            } else if is_shorter(key) {
                &&& t.interval.shrunk().nearest(2 * t.interval.scaled(), 3)
                &&& t.after(input).interval == t.interval.shrunk().larger(
                    Double { bits: SHORTEST_INTERVAL },
                )
                &&& t.after(input).interval.at_most(t.interval)
            } else {
                t.after(input).interval == t.interval
            },
            _ => t.after(input).interval == t.interval,
        },
{
    lemma_bounds();
    lemma_ordinary(t);
    lemma_grown(t.interval);
    lemma_shrunk(t.interval);
}

/// The state after some inputs.
pub open spec fn after_all(t: Tui, inputs: Seq<Input>) -> Tui
    decreases inputs.len(),
{
    if inputs.len() == 0 {
        t
    } else {
        after_all(t, inputs.drop_last()).after(inputs.last())
    }
}

/// Whatever is pressed and however often, the interval stays within its bounds.
pub proof fn lemma_interval_is_always_held(t: Tui, inputs: Seq<Input>)
    requires
        t.wf(),
    ensures
        after_all(t, inputs).wf(),
    decreases inputs.len(),
{
    if inputs.len() > 0 {
        lemma_interval_is_always_held(t, inputs.drop_last());
        lemma_interval_stays_held(after_all(t, inputs.drop_last()), inputs.last());
    }
}

/// How often a key was pressed.
pub open spec fn presses(inputs: Seq<Input>, key: Key) -> nat
    decreases inputs.len(),
{
    if inputs.len() == 0 {
        0
    } else {
        presses(inputs.drop_last(), key) + if inputs.last() == Input::Pressed(key) {
            1nat
        } else {
            0nat
        }
    }
}

/// The pause and the log are switched by every press of their keys and by nothing
/// else: what is pressed an even number of times is as it was, and what is pressed
/// an odd number of times is the other way round.
pub proof fn lemma_switches(t: Tui, inputs: Seq<Input>)
    ensures
        after_all(t, inputs).paused == (t.paused == (presses(inputs, Key::Char(' ')) % 2 == 0)),
        after_all(t, inputs).logging == (t.logging == (presses(inputs, Key::Char('l')) % 2 == 0)),
    decreases inputs.len(),
{
    if inputs.len() > 0 {
        let before = inputs.drop_last();
        lemma_switches(t, before);
        lemma_one_input(after_all(t, before), inputs.last());
        let (a, b) = (Key::Char(' '), Key::Char('l'));
        let (p, q) = (presses(before, a), presses(before, b));
        assert(presses(inputs, a) == p + if inputs.last() == Input::Pressed(a) {
            1nat
        } else {
            0nat
        });
        assert(presses(inputs, b) == q + if inputs.last() == Input::Pressed(b) {
            1nat
        } else {
            0nat
        });
        assert((p + 1) % 2 == 0 <==> p % 2 != 0);
        assert((q + 1) % 2 == 0 <==> q % 2 != 0);
    }
}

/// One input switches what its key is for.
proof fn lemma_one_input(t: Tui, input: Input)
    ensures
        t.after(input).paused == (t.paused != (input == Input::Pressed(Key::Char(' ')))),
        t.after(input).logging == (t.logging != (input == Input::Pressed(Key::Char('l')))),
{
}

/// Two presses in a row of the key for the log start it and stop it, or stop it
/// and start it.
pub proof fn lemma_log_starts_and_stops(t: Tui)
    ensures
        t.effect(Key::Char('l')) != t.after_key(Key::Char('l')).effect(Key::Char('l')),
{
}

/// The wait is at least the shortest, and no longer than the interval, or an
/// hour where the screen is paused.
pub proof fn lemma_wait_is_held(t: Tui, remain: Double)
    requires
        t.wf(),
        !remain.is_nan(),
    ensures
        (Double { bits: SHORTEST_WAIT }).at_most(t.wait(remain)),
        !t.paused ==> t.wait(remain).at_most(t.interval),
{
    crate::double::lemma_magnitude_grows(SHORTEST_WAIT as nat, SHORTEST_INTERVAL as nat);
    crate::double::lemma_magnitude_grows(SHORTEST_WAIT as nat, HOUR as nat);
}

} // verus!
