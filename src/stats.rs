use vstd::prelude::*;

verus! {

/// The line breakdown of one file.
#[derive(Clone, Copy, Debug, PartialEq, Eq, Structural)]
pub struct FileStats {
    /// Total number of lines.
    pub lines: u64,
    /// Lines that hold code.
    pub code: u64,
    /// Lines that hold only a comment.
    pub comments: u64,
    /// Empty lines.
    pub blanks: u64,
}

/// The totals of one language, over every file of it seen so far.
#[derive(Clone, Copy, Debug, PartialEq, Eq, Structural)]
pub struct LanguageStats {
    /// Sum of the line breakdowns of the files.
    pub stats: FileStats,
    /// Number of files that were added.
    pub file_count: u64,
}

/// Mathematical form of a `LanguageStats`: unbounded counts.
pub ghost struct Tally {
    pub files: nat,
    pub lines: nat,
    pub code: nat,
    pub comments: nat,
    pub blanks: nat,
}

/// The tally with nothing in it.
pub open spec fn zero_tally() -> Tally {
    Tally { files: 0, lines: 0, code: 0, comments: 0, blanks: 0 }
}

/// Field-wise sum of two tallies.
pub open spec fn tally_sum(a: Tally, b: Tally) -> Tally {
    Tally {
        files: a.files + b.files,
        lines: a.lines + b.lines,
        code: a.code + b.code,
        comments: a.comments + b.comments,
        blanks: a.blanks + b.blanks,
    }
}

/// The tally of a single file with the given breakdown.
pub open spec fn file_tally(s: FileStats) -> Tally {
    Tally {
        files: 1,
        lines: s.lines as nat,
        code: s.code as nat,
        comments: s.comments as nat,
        blanks: s.blanks as nat,
    }
}

/// Whether every count of the tally fits in a `u64`.
pub open spec fn tally_fits(t: Tally) -> bool {
    &&& t.files <= u64::MAX
    &&& t.lines <= u64::MAX
    &&& t.code <= u64::MAX
    &&& t.comments <= u64::MAX
    &&& t.blanks <= u64::MAX
}

impl FileStats {
    /// Every line is counted exactly once, as code, comment or blank.
    pub open spec fn wf(&self) -> bool {
        self.lines == self.code + self.comments + self.blanks
    }

    /// Whether adding `other` field-wise stays within `u64`.
    pub open spec fn can_add(&self, other: FileStats) -> bool {
        &&& self.lines + other.lines <= u64::MAX
        &&& self.code + other.code <= u64::MAX
        &&& self.comments + other.comments <= u64::MAX
        &&& self.blanks + other.blanks <= u64::MAX
    }

    /// All four counts zero.
    pub fn zero() -> (r: FileStats)
        ensures
            r.lines == 0 && r.code == 0 && r.comments == 0 && r.blanks == 0,
            r.wf(),
    {
        FileStats { lines: 0, code: 0, comments: 0, blanks: 0 }
    }

    /// Adds the four counts of `stats` to those of `self`.
    pub fn add(&mut self, stats: FileStats)
        requires
            old(self).can_add(stats),
        ensures
            final(self).lines == old(self).lines + stats.lines,
            final(self).code == old(self).code + stats.code,
            final(self).comments == old(self).comments + stats.comments,
            final(self).blanks == old(self).blanks + stats.blanks,
            old(self).wf() && stats.wf() ==> final(self).wf(),
    {
        self.blanks = self.blanks + stats.blanks;
        self.comments = self.comments + stats.comments;
        self.lines = self.lines + stats.lines;
        self.code = self.code + stats.code;
    }
}

impl Default for FileStats {
    fn default() -> (r: FileStats)
        ensures
            r.lines == 0 && r.code == 0 && r.comments == 0 && r.blanks == 0,
    {
        FileStats::zero()
    }
}

impl LanguageStats {
    pub open spec fn view(&self) -> Tally {
        Tally {
            files: self.file_count as nat,
            lines: self.stats.lines as nat,
            code: self.stats.code as nat,
            comments: self.stats.comments as nat,
            blanks: self.stats.blanks as nat,
        }
    }

    /// Whether one more file with breakdown `stats` can be added within `u64`.
    pub open spec fn can_add(&self, stats: FileStats) -> bool {
        &&& self.stats.can_add(stats)
        &&& self.file_count < u64::MAX
    }

    /// No files, no lines.
    pub fn zero() -> (r: LanguageStats)
        ensures
            r@ == zero_tally(),
    {
        LanguageStats { stats: FileStats::zero(), file_count: 0 }
    }

    /// Folds one file into the totals: adds its counts and one to the file count.
    pub fn add(&mut self, stats: FileStats)
        requires
            old(self).can_add(stats),
        ensures
            final(self)@ == tally_sum(old(self)@, file_tally(stats)),
            old(self).stats.wf() && stats.wf() ==> final(self).stats.wf(),
    {
        self.stats.add(stats);
        self.file_count = self.file_count + 1;
    }
}

impl Default for LanguageStats {
    fn default() -> (r: LanguageStats)
        ensures
            r@ == zero_tally(),
    {
        LanguageStats::zero()
    }
}

} // verus!
