//! Setting a console up for the engine, one request at a time.
//!
//! The engine cannot talk to a console itself. It says which request to
//! make next, is told how the console answered, and maps the first refusal
//! to the result code of the whole setup.

use vstd::prelude::*;

verus! {

/// How setting up or presenting ended.
#[derive(Clone, Copy, Debug, PartialEq, Eq, Structural)]
pub enum Rcode {
    Success,
    InvalidScreenSize,
    InvalidScreenBuffer,
    InvalidFont,
    InvalidConsoleMode,
    InvalidScreenInfo,
}

/// The largest screen or font dimension that a console can be asked for.
pub const MAX_DIMENSION: usize = 0x7fff;

/// The request that the engine waits to hear about.
#[derive(Clone, Copy, Debug, PartialEq, Eq, Structural)]
pub enum SetupStage {
    /// No setup is under way.
    Idle,
    /// The window is being shrunk so that the buffer can take any size.
    ShrinkWindow,
    SizeBuffer,
    SetFont,
    SetInputMode,
    QueryBufferInfo,
    SizeWindow,
}

/// What to ask of the console next, or how the setup ended.
#[derive(Clone, Copy, Debug, PartialEq, Eq, Structural)]
pub enum SetupRequest {
    /// Make the window cover the cells `(0, 0) ..= (right, bottom)`.
    Window { right: i16, bottom: i16 },
    /// Give the screen buffer this size.
    BufferSize { width: i16, height: i16 },
    /// Select the engine's font face with cells of this size.
    Font { width: i16, height: i16 },
    /// Switch window and pointer input on.
    InputMode,
    /// Report the largest window that the console can show.
    BufferInfo,
    /// There is nothing more to ask.
    Finished(Rcode),
}

/// How the console answered a request.
#[derive(Clone, Copy, Debug, PartialEq, Eq, Structural)]
pub enum SetupReply {
    /// It refused.
    Failed,
    /// It did as asked.
    Done,
    /// It did as asked and reports its largest window.
    MaxWindow { width: i16, height: i16 },
}

/// The sizes that a setup was started with.
pub struct SetupPlan {
    pub screen_width: int,
    pub screen_height: int,
    pub font_width: int,
    pub font_height: int,
}

impl SetupPlan {
    /// Every dimension is positive and one that a console can be asked for.
    pub open spec fn valid(self) -> bool {
        &&& 0 < self.screen_width <= MAX_DIMENSION
        &&& 0 < self.screen_height <= MAX_DIMENSION
        &&& 0 < self.font_width <= MAX_DIMENSION
        &&& 0 < self.font_height <= MAX_DIMENSION
    }

    /// The result code of a refusal at `stage`.
    pub open spec fn refusal(stage: SetupStage) -> Rcode {
        match stage {
            SetupStage::Idle => Rcode::InvalidScreenInfo,
            SetupStage::ShrinkWindow => Rcode::InvalidScreenInfo,
            SetupStage::SizeBuffer => Rcode::InvalidScreenSize,
            SetupStage::SetFont => Rcode::InvalidFont,
            SetupStage::SetInputMode => Rcode::InvalidConsoleMode,
            SetupStage::QueryBufferInfo => Rcode::InvalidScreenInfo,
            SetupStage::SizeWindow => Rcode::InvalidScreenInfo,
        }
    }

    /// Whether `reply` lets the setup go on from `stage`. Only a report of
    /// the largest window answers the query for it; when no setup is under
    /// way nothing does.
    pub open spec fn accepted(stage: SetupStage, reply: SetupReply) -> bool {
        match stage {
            SetupStage::Idle => false,
            SetupStage::QueryBufferInfo => reply is MaxWindow,
            _ => !(reply is Failed),
        }
    }

    /// The stage after `reply` came in at `stage`, and what to ask next.
    /// A refusal ends the setup with the code of its stage, and so does a
    /// screen that is larger than the largest window.
    pub open spec fn next(self, stage: SetupStage, reply: SetupReply) -> (SetupStage, SetupRequest) {
        if !Self::accepted(stage, reply) {
            (SetupStage::Idle, SetupRequest::Finished(Self::refusal(stage)))
        } else {
            match stage {
                SetupStage::Idle => (SetupStage::Idle, SetupRequest::Finished(Rcode::InvalidScreenInfo)),
                SetupStage::ShrinkWindow => (
                    SetupStage::SizeBuffer,
                    SetupRequest::BufferSize {
                        width: self.screen_width as i16,
                        height: self.screen_height as i16,
                    },
                ),
                SetupStage::SizeBuffer => (
                    SetupStage::SetFont,
                    SetupRequest::Font {
                        width: self.font_width as i16,
                        height: self.font_height as i16,
                    },
                ),
                SetupStage::SetFont => (SetupStage::SetInputMode, SetupRequest::InputMode),
                SetupStage::SetInputMode => (SetupStage::QueryBufferInfo, SetupRequest::BufferInfo),
                SetupStage::QueryBufferInfo => {
                    if self.screen_height > reply->MaxWindow_height || self.screen_width
                        > reply->MaxWindow_width {
                        (SetupStage::Idle, SetupRequest::Finished(Rcode::InvalidScreenSize))
                    } else {
                        (
                            SetupStage::SizeWindow,
                            SetupRequest::Window {
                                right: (self.screen_width - 1) as i16,
                                bottom: (self.screen_height - 1) as i16,
                            },
                        )
                    }
                },
                SetupStage::SizeWindow => (SetupStage::Idle, SetupRequest::Finished(Rcode::Success)),
            }
        }
    }
}

/// A setup under way, or none: the sizes it was started with and the
/// request that is out.
#[derive(Clone, Copy, Debug)]
pub struct ConsoleSetup {
    screen_width: usize,
    screen_height: usize,
    font_width: usize,
    font_height: usize,
    stage: SetupStage,
}

impl ConsoleSetup {
    /// The sizes that the setup was started with.
    pub closed spec fn plan(self) -> SetupPlan {
        SetupPlan {
            screen_width: self.screen_width as int,
            screen_height: self.screen_height as int,
            font_width: self.font_width as int,
            font_height: self.font_height as int,
        }
    }

    /// The request that is out.
    pub closed spec fn stage(self) -> SetupStage {
        self.stage
    }

    /// A setup that is under way was started with valid sizes.
    #[verifier::type_invariant]
    spec fn inv(self) -> bool {
        self.stage != SetupStage::Idle ==> self.plan().valid()
    }

    /// No setup under way.
    pub fn idle() -> (setup: ConsoleSetup)
        ensures
            setup.stage() == SetupStage::Idle,
            setup.plan() == (SetupPlan { screen_width: 0, screen_height: 0, font_width: 0, font_height: 0 }),
    {
        ConsoleSetup {
            screen_width: 0,
            screen_height: 0,
            font_width: 0,
            font_height: 0,
            stage: SetupStage::Idle,
        }
    }

    /// A setup for the given sizes, waiting to hear that the window was
    /// shrunk; none if a size is zero or larger than a console can be
    /// asked for.
    pub fn start(screen_width: usize, screen_height: usize, font_width: usize, font_height: usize) -> (setup:
        Option<ConsoleSetup>)
        ensures
            ({
                let plan = SetupPlan {
                    screen_width: screen_width as int,
                    screen_height: screen_height as int,
                    font_width: font_width as int,
                    font_height: font_height as int,
                };
                match setup {
                    Some(s) => plan.valid() && s.plan() == plan && s.stage() == SetupStage::ShrinkWindow,
                    None => !plan.valid(),
                }
            }),
    {
        if screen_width == 0 || screen_height == 0 || font_width == 0 || font_height == 0 {
            return None;
        }
        if screen_width > MAX_DIMENSION || screen_height > MAX_DIMENSION || font_width > MAX_DIMENSION
            || font_height > MAX_DIMENSION {
            return None;
        }
        Some(
            ConsoleSetup {
                screen_width,
                screen_height,
                font_width,
                font_height,
                stage: SetupStage::ShrinkWindow,
            },
        )
    }

    /// Takes the console's answer to the request that is out: the setup
    /// moves to the next stage or ends, and the result says what to ask
    /// next.
    pub fn reply(self, reply: SetupReply) -> (r: (ConsoleSetup, SetupRequest))
        ensures
            (r.0.stage(), r.1) == self.plan().next(self.stage(), reply),
            r.0.plan() == self.plan(),
            self.stage() != SetupStage::Idle ==> self.plan().valid(),
    {
        proof {
            use_type_invariant(&self);
        }
        let accepted = match self.stage {
            SetupStage::Idle => false,
            SetupStage::QueryBufferInfo => match reply {
                SetupReply::MaxWindow { .. } => true,
                _ => false,
            },
            _ => match reply {
                SetupReply::Failed => false,
                _ => true,
            },
        };
        let (stage, request) = if !accepted {
            (
                SetupStage::Idle,
                SetupRequest::Finished(
                    match self.stage {
                        SetupStage::SizeBuffer => Rcode::InvalidScreenSize,
                        SetupStage::SetFont => Rcode::InvalidFont,
                        SetupStage::SetInputMode => Rcode::InvalidConsoleMode,
                        _ => Rcode::InvalidScreenInfo,
                    },
                ),
            )
        } else {
            match self.stage {
                SetupStage::Idle => (SetupStage::Idle, SetupRequest::Finished(Rcode::InvalidScreenInfo)),
                SetupStage::ShrinkWindow => (
                    SetupStage::SizeBuffer,
                    SetupRequest::BufferSize {
                        width: self.screen_width as i16,
                        height: self.screen_height as i16,
                    },
                ),
                SetupStage::SizeBuffer => (
                    SetupStage::SetFont,
                    SetupRequest::Font { width: self.font_width as i16, height: self.font_height as i16 },
                ),
                SetupStage::SetFont => (SetupStage::SetInputMode, SetupRequest::InputMode),
                SetupStage::SetInputMode => (SetupStage::QueryBufferInfo, SetupRequest::BufferInfo),
                SetupStage::QueryBufferInfo => {
                    let (max_width, max_height) = match reply {
                        SetupReply::MaxWindow { width, height } => (width, height),
                        _ => (0, 0),
                    };
                    if self.screen_height as i16 > max_height || self.screen_width as i16 > max_width {
                        (SetupStage::Idle, SetupRequest::Finished(Rcode::InvalidScreenSize))
                    } else {
                        (
                            SetupStage::SizeWindow,
                            SetupRequest::Window {
                                right: (self.screen_width - 1) as i16,
                                bottom: (self.screen_height - 1) as i16,
                            },
                        )
                    }
                },
                SetupStage::SizeWindow => (SetupStage::Idle, SetupRequest::Finished(Rcode::Success)),
            }
        };
        (ConsoleSetup { stage, ..self }, request)
    }

    /// The screen size that the setup was started with, as
    /// `(width, height)`.
    pub fn screen_size(&self) -> (size: (usize, usize))
        ensures
            size.0 == self.plan().screen_width,
            size.1 == self.plan().screen_height,
    {
        (self.screen_width, self.screen_height)
    }
}

/// The result code of handing the screen to the display: any failure to
/// write it is an invalid screen buffer.
pub fn presentation_code(written: bool) -> (code: Rcode)
    ensures
        code == if written {
            Rcode::Success
        } else {
            Rcode::InvalidScreenBuffer
        },
{
    if written {
        Rcode::Success
    } else {
        Rcode::InvalidScreenBuffer
    }
}

} // verus!
