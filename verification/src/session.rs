//! The browser session's own state: the canvas it was set up with, the
//! last packed frame, and whether the effect has finished.

use vstd::prelude::*;
use crate::engine::terminal::PackedFrame;
use crate::utils::text::{is_blank, is_blank_seq};

verus! {

/// Frame rate of the session clock when none is given.
pub const DEFAULT_FRAME_RATE: i64 = 60;

/// The canvas and clock a session runs its effect with.
#[derive(Clone, Copy, PartialEq, Eq, Structural, Debug)]
pub struct SessionConfig {
    /// Canvas width in columns, at least 1.
    pub columns: i64,
    /// Canvas height in rows, at least 1.
    pub rows: i64,
    /// Frame rate asked for; 0 for none.
    pub frame_rate: i64,
    /// Frame rate of the clock: the one asked for, or the default.
    pub clock_frame_rate: i64,
}

/// What reading the effect name as a command of the effect registry gave.
#[derive(Debug)]
pub enum EffectLookup {
    /// The name names an effect.
    Found,
    /// The name was read, but named no effect.
    NoEffect,
    /// The name was refused; the reader's explanation.
    Refused(String),
}

/// Why a session could not start.
#[derive(Debug)]
pub enum SessionError {
    /// The input text is empty or white space only.
    NoInput,
    /// The effect name names no effect; `detail` is the explanation given
    /// when the name was refused outright.
    UnknownEffect { name: String, detail: Option<String> },
}

/// The message shown for an error: `NO INPUT.`, or `unknown effect '…'`
/// followed by `: ` and the explanation when there is one.
pub open spec fn error_message(error: SessionError) -> Seq<char> {
    match error {
        SessionError::NoInput => "NO INPUT."@,
        SessionError::UnknownEffect { name, detail } => match detail {
            None => "unknown effect '"@ + name@ + "'"@,
            Some(d) => "unknown effect '"@ + name@ + "'"@ + ": "@ + d@,
        },
    }
}

impl SessionError {
    /// The message shown for the error.
    pub fn message(&self) -> (text: String)
        ensures
            text@ == error_message(*self),
    {
        match self {
            SessionError::NoInput => String::from_str("NO INPUT."),
            SessionError::UnknownEffect { name, detail } => {
                let mut text = String::from_str("unknown effect '");
                text.append(name.as_str());
                text.append("'");
                match detail {
                    Some(d) => {
                        text.append(": ");
                        text.append(d.as_str());
                    },
                    None => {},
                }
                text
            },
        }
    }
}

/// The configuration that `Session::new` gives a canvas of `columns` by
/// `rows` and a frame rate: both sizes at least 1, and the default clock
/// rate when the frame rate is 0.
pub open spec fn session_config(columns: u32, rows: u32, frame_rate: u32) -> SessionConfig {
    SessionConfig {
        columns: if columns >= 1 { columns as i64 } else { 1 },
        rows: if rows >= 1 { rows as i64 } else { 1 },
        frame_rate: frame_rate as i64,
        clock_frame_rate: if frame_rate > 0 { frame_rate as i64 } else { DEFAULT_FRAME_RATE },
    }
}

/// The canvas is the size asked for, with 0 read as 1, and the clock runs
/// at the frame rate asked for whenever one is asked for (any rate above
/// 0), at 60 frames a second otherwise.
pub proof fn lemma_session_config_follows_request(columns: u32, rows: u32, frame_rate: u32)
    ensures
        columns > 0 ==> session_config(columns, rows, frame_rate).columns == columns,
        columns == 0 ==> session_config(columns, rows, frame_rate).columns == 1,
        rows > 0 ==> session_config(columns, rows, frame_rate).rows == rows,
        rows == 0 ==> session_config(columns, rows, frame_rate).rows == 1,
        session_config(columns, rows, frame_rate).frame_rate == frame_rate,
        frame_rate > 0 ==> session_config(columns, rows, frame_rate).clock_frame_rate == frame_rate,
        frame_rate == 0 ==> session_config(columns, rows, frame_rate).clock_frame_rate == 60,
{
}

/// Whether a session is done after one step, given whether it was done
/// before and whether the effect produced a frame for the step.
pub open spec fn done_after_step(was_done: bool, produced: bool) -> bool {
    was_done || !produced
}

/// What one step returns, given whether the session was done before and
/// whether the effect produced a frame for the step.
pub open spec fn step_result(was_done: bool, produced: bool) -> bool {
    !was_done && produced
}

/// Whether a fresh session is done after steps for which the effect
/// produced a frame or not, in order.
pub open spec fn done_after_steps(produced: Seq<bool>) -> bool
    decreases produced.len(),
{
    if produced.len() == 0 {
        false
    } else {
        done_after_step(done_after_steps(produced.drop_last()), produced.last())
    }
}

/// What the steps of a fresh session return, in order.
pub open spec fn step_results(produced: Seq<bool>) -> Seq<bool>
    decreases produced.len(),
{
    if produced.len() == 0 {
        Seq::empty()
    } else {
        step_results(produced.drop_last()).push(
            step_result(done_after_steps(produced.drop_last()), produced.last()),
        )
    }
}

/// Over any run of steps of a fresh session, the session is done exactly
/// when some step returned false, and after a step returned false every
/// later step returns false too.
pub proof fn lemma_done_once_a_step_returns_false(produced: Seq<bool>)
    ensures
        step_results(produced).len() == produced.len(),
        done_after_steps(produced) == exists|i: int|
            0 <= i < produced.len() && !(#[trigger] step_results(produced)[i]),
        forall|i: int, j: int|
            0 <= i < j < produced.len() && !step_results(produced)[i] ==> !step_results(
                produced,
            )[j],
    decreases produced.len(),
{
    if produced.len() > 0 {
        let before = produced.drop_last();
        lemma_done_once_a_step_returns_false(before);
        let results = step_results(produced);
        let n = produced.len() - 1;
        assert(forall|i: int| 0 <= i < n ==> results[i] == step_results(before)[i]);
        if done_after_steps(before) {
            let i = choose|i: int| 0 <= i < n && !(#[trigger] step_results(before)[i]);
            assert(!results[i]);
        } else if !produced.last() {
            assert(!results[n]);
        }
        if exists|i: int| 0 <= i < produced.len() && !(#[trigger] results[i]) {
            let i = choose|i: int| 0 <= i < produced.len() && !(#[trigger] results[i]);
            if i < n {
                assert(!step_results(before)[i]);
            }
        }
    }
}

/// A running effect as the browser sees it.
pub struct Session {
    config: SessionConfig,
    frame: PackedFrame,
    done: bool,
}

impl Session {
    /// The last frame always has one entry per cell in each of its parts.
    #[verifier::type_invariant]
    spec fn frame_has_every_cell(self) -> bool {
        self.frame.well_formed()
    }

    /// The configuration the session was set up with.
    pub closed spec fn spec_config(&self) -> SessionConfig {
        self.config
    }

    /// The last frame packed, empty before the first.
    pub closed spec fn spec_frame(&self) -> PackedFrame {
        self.frame
    }

    /// Whether the effect has finished.
    pub closed spec fn spec_done(&self) -> bool {
        self.done
    }

    /// Sets up a session that runs the effect named `effect` on `input`,
    /// on a canvas of `columns` by `rows`. `lookup` is what reading the
    /// name in the effect registry gave. Fails when the input is blank, and
    /// otherwise when the name names no effect.
    pub fn new(
        input: &str,
        effect: &str,
        lookup: EffectLookup,
        columns: u32,
        rows: u32,
        frame_rate: u32,
    ) -> (session: Result<Session, SessionError>)
        ensures
            session is Ok <==> !is_blank_seq(input@) && lookup is Found,
            is_blank_seq(input@) ==> session matches Err(SessionError::NoInput),
            !is_blank_seq(input@) && lookup is NoEffect ==> (session matches Err(
                SessionError::UnknownEffect { name, detail },
            ) && name@ == effect@ && detail is None),
            !is_blank_seq(input@) && lookup is Refused ==> (session matches Err(
                SessionError::UnknownEffect { name, detail },
            ) && name@ == effect@ && detail == Some(lookup->Refused_0)),
            session matches Ok(s) ==> {
                &&& s.spec_config() == session_config(columns, rows, frame_rate)
                &&& frame_rate > 0 ==> s.spec_config().clock_frame_rate == frame_rate
                &&& frame_rate == 0 ==> s.spec_config().clock_frame_rate == 60
                &&& !s.spec_done()
                &&& s.spec_frame().width == 0
                &&& s.spec_frame().height == 0
                &&& s.spec_frame().symbols@.len() == 0
                &&& s.spec_frame().fg@.len() == 0
                &&& s.spec_frame().bg@.len() == 0
                &&& s.spec_frame().flags@.len() == 0
                &&& s.spec_frame().well_formed()
            },
    {
        if is_blank(input) {
            return Err(SessionError::NoInput);
        }
        match lookup {
            EffectLookup::Found => {},
            EffectLookup::NoEffect => {
                return Err(
                    SessionError::UnknownEffect { name: String::from_str(effect), detail: None },
                );
            },
            EffectLookup::Refused(explanation) => {
                return Err(
                    SessionError::UnknownEffect {
                        name: String::from_str(effect),
                        detail: Some(explanation),
                    },
                );
            },
        }
        let columns: i64 = if columns >= 1 { columns as i64 } else { 1 };
        let rows: i64 = if rows >= 1 { rows as i64 } else { 1 };
        let clock_frame_rate: i64 = if frame_rate > 0 { frame_rate as i64 } else { DEFAULT_FRAME_RATE };
        let config = SessionConfig { columns, rows, frame_rate: frame_rate as i64, clock_frame_rate };
        Ok(Session { config, frame: PackedFrame::empty(), done: false })
    }

    /// The configuration the session was set up with.
    pub fn config(&self) -> (config: SessionConfig)
        ensures
            config == self.spec_config(),
    {
        self.config
    }

    /// Advances one animation frame. `next` is what the effect produced
    /// for it: a packed frame, or `None` when the effect has finished.
    /// Returns false when the effect is finished; once finished, the
    /// session stays so and ignores `next`.
    pub fn step(&mut self, next: Option<PackedFrame>) -> (advanced: bool)
        requires
            next matches Some(frame) ==> frame.well_formed(),
        ensures
            final(self).spec_frame().well_formed(),
            final(self).spec_config() == old(self).spec_config(),
            advanced == step_result(old(self).spec_done(), next is Some),
            final(self).spec_done() == done_after_step(old(self).spec_done(), next is Some),
            old(self).spec_done() ==> !advanced && final(self).spec_done() && final(self).spec_frame()
                == old(self).spec_frame(),
            !old(self).spec_done() ==> (advanced <==> next is Some),
            !old(self).spec_done() && next is Some ==> !final(self).spec_done() && final(self).spec_frame()
                == next.unwrap(),
            !old(self).spec_done() && next is None ==> final(self).spec_done() && final(self).spec_frame()
                == old(self).spec_frame(),
    {
        proof {
            use_type_invariant(&*self);
        }
        if self.done {
            return false;
        }
        match next {
            Some(frame) => {
                self.frame = frame;
                true
            },
            None => {
                self.done = true;
                false
            },
        }
    }

    /// Whether the effect has finished.
    pub fn done(&self) -> (done: bool)
        ensures
            done == self.spec_done(),
            self.spec_frame().well_formed(),
    {
        proof {
            use_type_invariant(self);
        }
        self.done
    }

    /// Width of the last frame, in cells.
    pub fn width(&self) -> (width: u32)
        ensures
            width == self.spec_frame().width as u32,
            self.spec_frame().well_formed(),
    {
        proof {
            use_type_invariant(self);
        }
        self.frame.width as u32
    }

    /// Height of the last frame, in cells.
    pub fn height(&self) -> (height: u32)
        ensures
            height == self.spec_frame().height as u32,
            self.spec_frame().well_formed(),
    {
        proof {
            use_type_invariant(self);
        }
        self.frame.height as u32
    }

    /// Symbols of the last frame, top row first.
    pub fn symbols(&self) -> (symbols: String)
        ensures
            symbols@ == self.spec_frame().symbols@,
            symbols@.len() == self.spec_frame().width * self.spec_frame().height,
            self.spec_frame().well_formed(),
    {
        proof {
            use_type_invariant(self);
        }
        self.frame.symbols.clone()
    }

    /// Foreground colors of the last frame's cells.
    pub fn fg(&self) -> (fg: Vec<u32>)
        ensures
            fg@ == self.spec_frame().fg@,
            fg@.len() == self.spec_frame().width * self.spec_frame().height,
            self.spec_frame().well_formed(),
    {
        proof {
            use_type_invariant(self);
        }
        self.frame.fg.clone()
    }

    /// Background colors of the last frame's cells.
    pub fn bg(&self) -> (bg: Vec<u32>)
        ensures
            bg@ == self.spec_frame().bg@,
            bg@.len() == self.spec_frame().width * self.spec_frame().height,
            self.spec_frame().well_formed(),
    {
        proof {
            use_type_invariant(self);
        }
        self.frame.bg.clone()
    }

    /// Style flags of the last frame's cells.
    pub fn flags(&self) -> (flags: Vec<u8>)
        ensures
            flags@ == self.spec_frame().flags@,
            flags@.len() == self.spec_frame().width * self.spec_frame().height,
            self.spec_frame().well_formed(),
    {
        proof {
            use_type_invariant(self);
        }
        self.frame.flags.clone()
    }
}

} // verus!
