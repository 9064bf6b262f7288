//! Settings of the writers of logs.
use vstd::prelude::*;

verus! {

/// The size of the buffer of a log writer by default.
pub const DEFAULT_BUFFER_SIZE: usize = 8192;

/// How logs are written.
#[derive(Debug)]
pub struct LogWriterConfig {
    /// The directory of the logs.
    pub logs_dir: String,
    /// At which size a log is cut; without it logs grow without bound.
    pub max_size: Option<u64>,
    pub buffer_size: usize,
}

impl LogWriterConfig {
    /// Settings with the given values.
    pub fn with_options(logs_dir: String, max_size: Option<u64>, buffer_size: usize) -> (r: Self)
        ensures
            r == (LogWriterConfig { logs_dir, max_size, buffer_size }),
    {
        LogWriterConfig { logs_dir, max_size, buffer_size }
    }
}

/// Which lines of a log are wanted.
#[derive(Debug, Clone, Copy, PartialEq, Eq, Structural)]
pub enum LogMode {
    Head,
    Tail,
    All,
}

/// How a log is read.
#[derive(Debug, Clone, Copy, PartialEq, Eq, Structural)]
pub enum LogRead {
    /// The first lines.
    Head { lines: usize },
    /// The last lines.
    Tail { lines: usize },
    /// The last lines, up to a number of bytes.
    TailBounded { lines: usize, max_bytes: Option<usize> },
    /// All lines from the start, up to a number of them.
    All { lines: usize },
    /// A page.
    Page { offset: usize, limit: usize },
}

impl LogMode {
    /// How a log is read in this mode. Only the end of a log is bounded in bytes.
    pub open spec fn read_as(self, lines: usize, max_bytes: Option<usize>) -> LogRead {
        match self {
            LogMode::Head => LogRead::Head { lines },
            LogMode::Tail => LogRead::TailBounded { lines, max_bytes },
            LogMode::All => LogRead::All { lines },
        }
    }

    /// How a log is read in this mode.
    pub fn read(&self, lines: usize, max_bytes: Option<usize>) -> (r: LogRead)
        ensures
            r == self.read_as(lines, max_bytes),
    {
        match self {
            LogMode::Head => LogRead::Head { lines },
            LogMode::Tail => LogRead::TailBounded { lines, max_bytes },
            LogMode::All => LogRead::All { lines },
        }
    }
}

/// The mode says which lines are read; a bound on the bytes counts only for the end of a log.
pub proof fn law_mode_says_which_lines(
    mode: LogMode,
    lines: usize,
    bound: Option<usize>,
    other: Option<usize>,
    r: LogRead,
    s: LogRead,
)
    requires
        call_ensures(LogMode::read, (&mode, lines, bound), r),
        call_ensures(LogMode::read, (&mode, lines, other), s),
    ensures
        mode == LogMode::Head ==> r == (LogRead::Head { lines }),
        mode == LogMode::All ==> r == (LogRead::All { lines }),
        mode == LogMode::Tail ==> r == (LogRead::TailBounded { lines, max_bytes: bound }),
        mode != LogMode::Tail ==> r == s,
{
}

} // verus!
