//! The parsed form of one trace line.
use vstd::prelude::*;

verus! {

/// A non-negative decimal number of seconds, kept exactly as it was written:
/// its value is `mantissa / 10^scale` (`0.000030` has mantissa 30 and scale 6).
#[derive(Clone, Copy, Debug, PartialEq, Eq, Structural)]
pub struct DecimalSeconds {
    pub mantissa: u64,
    pub scale: u32,
}

/// One system call as a trace line reports it.
#[derive(Clone, Debug, PartialEq)]
pub struct Syscall {
    pub timestamp: String,
    pub syscall: String,
    pub args: String,
    pub return_value: Option<i64>,
    pub error_code: Option<String>,
    pub error_message: Option<String>,
    pub duration: Option<DecimalSeconds>,
    pub unfinished: bool,
    pub resumed: bool,
}

/// The mathematical content of a [`Syscall`].
pub struct SyscallView {
    pub timestamp: Seq<char>,
    pub syscall: Seq<char>,
    pub args: Seq<char>,
    pub return_value: Option<int>,
    pub error_code: Option<Seq<char>>,
    pub error_message: Option<Seq<char>>,
    pub duration: Option<DecimalSeconds>,
    pub unfinished: bool,
    pub resumed: bool,
}

pub open spec fn opt_text(o: Option<String>) -> Option<Seq<char>> {
    match o {
        Some(s) => Some(s@),
        None => None,
    }
}

pub open spec fn opt_i64(o: Option<i64>) -> Option<int> {
    match o {
        Some(x) => Some(x as int),
        None => None,
    }
}

impl View for Syscall {
    type V = SyscallView;

    open spec fn view(&self) -> SyscallView {
        SyscallView {
            timestamp: self.timestamp@,
            syscall: self.syscall@,
            args: self.args@,
            return_value: opt_i64(self.return_value),
            error_code: opt_text(self.error_code),
            error_message: opt_text(self.error_message),
            duration: self.duration,
            unfinished: self.unfinished,
            resumed: self.resumed,
        }
    }
}

pub open spec fn opt_view(o: Option<Syscall>) -> Option<SyscallView> {
    match o {
        Some(e) => Some(e@),
        None => None,
    }
}

} // verus!
