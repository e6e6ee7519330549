//! Configuration of the encode tool, and its validation.
//!
//! Reading the command line itself is left to the caller; this module holds
//! the checked configuration: up to three named input sources mapped to the
//! stdin/stdout/stderr tags, one output destination, and the frame size
//! bounds.

use vstd::prelude::*;

verus! {

/// Largest frame size that may be configured.
pub const FRAME_SIZE_ABS_MAX: u32 = 4092;

/// The encode tool's configuration, as parsed: an output destination ("-"
/// for standard output), one optional source file per channel, and the
/// frame size bounds. `frame_min` may be given non-positive, counting back
/// from `frame_max`; `validate` resolves that.
#[derive(Clone, Debug)]
pub struct Args {
    pub output: String,
    pub stdin: Option<String>,
    pub stdout: Option<String>,
    pub stderr: Option<String>,
    pub frame_max: u32,
    pub frame_min: i32,
}

/// What `frame_min` resolves to: a non-positive value counts back from
/// `frame_max`, a value above `frame_max` is clamped down to it.
pub open spec fn normalized_frame_min(frame_min: i32, frame_max: u32) -> int {
    if frame_min <= 0 {
        frame_max + frame_min
    } else if frame_min > frame_max {
        frame_max as int
    } else {
        frame_min as int
    }
}

/// The source file configured for a channel tag.
pub open spec fn source_field(args: Args, tag: u8) -> Option<String> {
    if tag == 0 {
        args.stdin
    } else if tag == 1 {
        args.stdout
    } else if tag == 2 {
        args.stderr
    } else {
        None
    }
}

impl Args {
    /// Validation and normalization applied after command-line parsing: at
    /// least one source must be named, `frame_max` may not exceed
    /// `FRAME_SIZE_ABS_MAX`, and `frame_min` is resolved as
    /// `normalized_frame_min` says.
    pub fn validate(self) -> (r: Result<Args, ArgsError>)
        ensures
            r is Ok <==> ((self.stdin is Some || self.stdout is Some || self.stderr is Some)
                && self.frame_max <= FRAME_SIZE_ABS_MAX),
            r matches Err(e) ==> (if self.stdin is None && self.stdout is None && self.stderr
                is None {
                e is NoInputSpecified
            } else {
                e matches ArgsError::FrameSizeExceeded(m) && m == self.frame_max
            }),
            r matches Ok(a) ==> a.output == self.output && a.stdin == self.stdin && a.stdout
                == self.stdout && a.stderr == self.stderr && a.frame_max == self.frame_max
                && a.frame_min == normalized_frame_min(self.frame_min, self.frame_max),
    {
        let mut args = self;
        if args.stdin.is_none() && args.stdout.is_none() && args.stderr.is_none() {
            return Err(ArgsError::NoInputSpecified);
        }
        if args.frame_max > FRAME_SIZE_ABS_MAX {
            return Err(ArgsError::FrameSizeExceeded(args.frame_max));
        }
        if args.frame_min <= 0 {
            args.frame_min = args.frame_max as i32 + args.frame_min;
        } else if args.frame_min > args.frame_max as i32 {
            args.frame_min = args.frame_max as i32;
        }
        Ok(args)
    }

    /// The configured sources in channel-tag order, handed out one at a
    /// time.
    pub fn get_sources(&self) -> (it: SourcesIterator)
        ensures
            it.cursor() == 0,
            it.args_spec() == *self,
    {
        SourcesIterator { args: self, last_checked: 0 }
    }
}

/// One configured source: its channel tag and the name of the file to read.
pub struct StreamFilename<'a> {
    pub stream_type: u8,
    pub filename: &'a String,
}

/// Walks the three channel slots in tag order and hands out those that are
/// configured.
pub struct SourcesIterator<'a> {
    args: &'a Args,
    last_checked: u8,
}

impl<'a> SourcesIterator<'a> {
    /// The next channel tag to be examined.
    pub closed spec fn cursor(&self) -> u8 {
        self.last_checked
    }

    /// The configuration being walked.
    pub closed spec fn args_spec(&self) -> Args {
        *self.args
    }

    /// Hands out the next configured source at or after the cursor, in
    /// channel-tag order, or `None` when no channel at or after the cursor
    /// has one.
    pub fn next(&mut self) -> (r: Option<StreamFilename<'a>>)
        ensures
            final(self).args_spec() == old(self).args_spec(),
            r matches Some(sf) ==> old(self).cursor() <= sf.stream_type < 3 && source_field(
                old(self).args_spec(),
                sf.stream_type,
            ) == Some(*sf.filename) && (forall|t: u8|
                old(self).cursor() <= t < sf.stream_type ==> source_field(
                    old(self).args_spec(),
                    t,
                ) is None) && final(self).cursor() == sf.stream_type + 1,
            r is None ==> (forall|t: u8|
                old(self).cursor() <= t < 3 ==> source_field(old(self).args_spec(), t) is None)
                && final(self).cursor() >= 3,
    {
        let args = self.args;
        if self.last_checked > 2 {
            return None;
        }
        while self.last_checked <= 2
            invariant
                old(self).cursor() <= self.last_checked <= 3,
                self.args == old(self).args,
                args == old(self).args,
                forall|t: u8|
                    old(self).cursor() <= t < self.last_checked ==> source_field(
                        old(self).args_spec(),
                        t,
                    ) is None,
            decreases 3 - self.last_checked,
        {
            let stream_type = self.last_checked;
            self.last_checked = self.last_checked + 1;
            let maybe_stream: Option<&'a String> = match stream_type {
                0 => args.stdin.as_ref(),
                1 => args.stdout.as_ref(),
                2 => args.stderr.as_ref(),
                _ => None,
            };
            proof {
                assert(*args == old(self).args_spec());
            }
            if let Some(filename) = maybe_stream {
                proof {
                    assert(source_field(old(self).args_spec(), stream_type) == Some(*filename));
                }
                return Some(StreamFilename { filename, stream_type });
            }
            proof {
                assert(source_field(old(self).args_spec(), stream_type) is None);
            }
        }
        None
    }
}

/// What can be wrong with the encode tool's configuration.
#[derive(Clone, Copy, Debug)]
pub enum ArgsError {
    NoInputSpecified,
    FrameSizeExceeded(u32),
}

} // verus!
