use vstd::prelude::*;
use vstd::utf8::encode_utf8;
use crate::lines::LineCounter;
use crate::order::{
    lemma_bytes_before_irreflexive, lemma_bytes_before_transitive, lemma_name_before_total,
    name_before, str_before,
};
use crate::registry::{language_of_path, resolve_path, Registry};
use crate::stats::{file_tally, tally_fits, tally_sum, zero_tally, FileStats, LanguageStats, Tally};

verus! {

/// The totals of one language in the table.
pub struct LanguageEntry {
    pub language: String,
    pub stats: LanguageStats,
}

/// Returned when a count would no longer fit in a `u64`.
#[derive(Clone, Copy, Debug, PartialEq, Eq, Structural)]
pub struct CountOverflow;

/// Counts files by language: each file counted is folded into the totals of
/// its language, found from the file's extension.
pub struct StatisticsManager {
    registry: Registry,
    language_stats: Vec<LanguageEntry>,
}

/// The table held in `s`, language to totals.
pub open spec fn table_of(s: Seq<LanguageEntry>) -> Map<Seq<char>, Tally>
    decreases s.len(),
{
    if s.len() == 0 {
        Map::empty()
    } else {
        table_of(s.drop_last()).insert(s.last().language@, s.last().stats@)
    }
}

/// Sum of the file counts in `s`.
pub open spec fn files_total(s: Seq<LanguageEntry>) -> nat
    decreases s.len(),
{
    if s.len() == 0 {
        0
    } else {
        files_total(s.drop_last()) + s.last().stats.file_count as nat
    }
}

/// No language stands twice in `s`.
pub open spec fn distinct_languages(s: Seq<LanguageEntry>) -> bool {
    forall|i: int, j: int|
        0 <= i < j < s.len() ==> #[trigger] s[i].language@ != #[trigger] s[j].language@
}

/// The languages of `s` stand in order of their names.
pub open spec fn sorted_languages(s: Seq<LanguageEntry>) -> bool {
    forall|i: int, j: int|
        0 <= i < j < s.len() ==> name_before(#[trigger] s[i].language@, #[trigger] s[j].language@)
}

/// The totals of `lang` in table `t`; zero where it has none.
pub open spec fn tally_of(t: Map<Seq<char>, Tally>, lang: Seq<char>) -> Tally {
    if t.contains_key(lang) {
        t[lang]
    } else {
        zero_tally()
    }
}

/// The table after the file at `path`, holding `content`, is counted: an
/// unclassified file leaves it as it is.
pub open spec fn record(
    t: Map<Seq<char>, Tally>,
    reg: Map<Seq<char>, (Seq<char>, LineCounter)>,
    path: Seq<char>,
    content: Seq<char>,
) -> Map<Seq<char>, Tally> {
    match resolve_path(reg, path) {
        None => t,
        Some((lang, counter)) => t.insert(
            lang,
            tally_sum(tally_of(t, lang), file_tally(counter.counted(content))),
        ),
    }
}

/// The table after each (path, content) of `files` is counted, in order.
pub open spec fn record_all(
    t: Map<Seq<char>, Tally>,
    reg: Map<Seq<char>, (Seq<char>, LineCounter)>,
    files: Seq<(Seq<char>, Seq<char>)>,
) -> Map<Seq<char>, Tally>
    decreases files.len(),
{
    if files.len() == 0 {
        t
    } else {
        record(record_all(t, reg, files.drop_last()), reg, files.last().0, files.last().1)
    }
}

proof fn lemma_table_entries(s: Seq<LanguageEntry>)
    requires
        distinct_languages(s),
    ensures
        forall|i: int|
            0 <= i < s.len() ==> #[trigger] table_of(s).contains_key(s[i].language@)
                && table_of(s)[s[i].language@] == s[i].stats@,
        forall|k: Seq<char>|
            #[trigger] table_of(s).contains_key(k) ==> exists|i: int|
                0 <= i < s.len() && #[trigger] s[i].language@ == k,
    decreases s.len(),
{
    if s.len() > 0 {
        let t = s.drop_last();
        lemma_distinct_drop_last(s);
        lemma_table_entries(t);
        assert forall|k: Seq<char>| #[trigger] table_of(s).contains_key(k) implies exists|i: int|
            0 <= i < s.len() && #[trigger] s[i].language@ == k by {
            if k != s.last().language@ {
                assert(table_of(t).contains_key(k));
                let i = choose|i: int| 0 <= i < t.len() && #[trigger] t[i].language@ == k;
                assert(s[i] == t[i]);
            } else {
                assert(s[s.len() - 1].language@ == k);
            }
        }
        assert forall|i: int| 0 <= i < s.len() implies #[trigger] table_of(s).contains_key(
            s[i].language@,
        ) && table_of(s)[s[i].language@] == s[i].stats@ by {
            if i < s.len() - 1 {
                assert(s[i] == t[i]);
                assert(table_of(t).contains_key(t[i].language@));
                assert(table_of(t)[t[i].language@] == t[i].stats@);
                assert(s[i].language@ != s[s.len() - 1].language@);
            }
        }
    }
}

proof fn lemma_distinct_drop_last(s: Seq<LanguageEntry>)
    requires
        distinct_languages(s),
        s.len() > 0,
    ensures
        distinct_languages(s.drop_last()),
{
    let t = s.drop_last();
    assert forall|a: int, b: int| 0 <= a < b < t.len() implies #[trigger] t[a].language@
        != #[trigger] t[b].language@ by {
        assert(s[a].language@ != s[b].language@);
    }
}

proof fn lemma_table_insert(s: Seq<LanguageEntry>, p: int, e: LanguageEntry)
    requires
        0 <= p <= s.len(),
        forall|j: int| 0 <= j < s.len() ==> #[trigger] s[j].language@ != e.language@,
    ensures
        table_of(s.insert(p, e)) == table_of(s).insert(e.language@, e.stats@),
        files_total(s.insert(p, e)) == files_total(s) + e.stats.file_count,
    decreases s.len(),
{
    let u = s.insert(p, e);
    if p == s.len() {
        assert(u.drop_last() =~= s);
    } else {
        let t = s.drop_last();
        assert forall|j: int| 0 <= j < t.len() implies #[trigger] t[j].language@ != e.language@ by {
            assert(t[j] == s[j]);
        }
        lemma_table_insert(t, p, e);
        assert(u.drop_last() =~= t.insert(p, e));
        assert(u.last() == s.last());
        assert(s.last().language@ != e.language@);
        assert(table_of(u) =~= table_of(s).insert(e.language@, e.stats@));
    }
}

/// Inserting a new language where the scan for its place stopped keeps the
/// table's invariants.
proof fn lemma_insert_entry(s: Seq<LanguageEntry>, p: int, e: LanguageEntry)
    requires
        distinct_languages(s),
        sorted_languages(s),
        0 <= p <= s.len(),
        forall|j: int| 0 <= j < s.len() ==> #[trigger] s[j].language@ != e.language@,
        forall|j: int| 0 <= j < p ==> name_before(#[trigger] s[j].language@, e.language@),
        p < s.len() ==> !name_before(s[p].language@, e.language@),
    ensures
        table_of(s.insert(p, e)) == table_of(s).insert(e.language@, e.stats@),
        files_total(s.insert(p, e)) == files_total(s) + e.stats.file_count,
        distinct_languages(s.insert(p, e)),
        sorted_languages(s.insert(p, e)),
{
    lemma_table_insert(s, p, e);
    let u = s.insert(p, e);
    if p < s.len() {
        lemma_name_before_total(s[p].language@, e.language@);
    }
    assert forall|j: int| p <= j < s.len() implies name_before(
        e.language@,
        #[trigger] s[j].language@,
    ) by {
        if j > p {
            assert(name_before(s[p].language@, s[j].language@));
            lemma_bytes_before_transitive(
                encode_utf8(e.language@),
                encode_utf8(s[p].language@),
                encode_utf8(s[j].language@),
            );
        }
    }
    assert forall|a: int, b: int| 0 <= a < b < u.len() implies name_before(
        #[trigger] u[a].language@,
        #[trigger] u[b].language@,
    ) && u[a].language@ != u[b].language@ by {
        if a < p && b < p {
            assert(name_before(s[a].language@, s[b].language@));
        } else if a < p && b == p {
        } else if a < p {
            assert(u[b] == s[b - 1]);
            assert(name_before(s[a].language@, s[b - 1].language@));
        } else if a == p {
            assert(u[b] == s[b - 1]);
        } else {
            assert(u[a] == s[a - 1] && u[b] == s[b - 1]);
            assert(name_before(s[a - 1].language@, s[b - 1].language@));
        }
        lemma_bytes_before_irreflexive(encode_utf8(u[a].language@));
    }
}

proof fn lemma_table_absent(s: Seq<LanguageEntry>, k: Seq<char>)
    requires
        forall|i: int| 0 <= i < s.len() ==> #[trigger] s[i].language@ != k,
    ensures
        !table_of(s).contains_key(k),
    decreases s.len(),
{
    if s.len() > 0 {
        let t = s.drop_last();
        assert forall|i: int| 0 <= i < t.len() implies #[trigger] t[i].language@ != k by {
            assert(s[i] == t[i]);
        }
        lemma_table_absent(t, k);
    }
}

proof fn lemma_table_update(s: Seq<LanguageEntry>, i: int, e: LanguageEntry)
    requires
        distinct_languages(s),
        0 <= i < s.len(),
        e.language@ == s[i].language@,
    ensures
        table_of(s.update(i, e)) == table_of(s).insert(e.language@, e.stats@),
        files_total(s.update(i, e)) + s[i].stats.file_count == files_total(s)
            + e.stats.file_count,
        distinct_languages(s.update(i, e)),
        sorted_languages(s) ==> sorted_languages(s.update(i, e)),
    decreases s.len(),
{
    let u = s.update(i, e);
    if sorted_languages(s) {
        assert forall|a: int, b: int| 0 <= a < b < u.len() implies name_before(
            #[trigger] u[a].language@,
            #[trigger] u[b].language@,
        ) by {
            assert(name_before(s[a].language@, s[b].language@));
        }
    }
    assert(distinct_languages(u)) by {
        assert forall|a: int, b: int| 0 <= a < b < u.len() implies #[trigger] u[a].language@
            != #[trigger] u[b].language@ by {
            assert(s[a].language@ != s[b].language@);
        }
    }
    if i == s.len() - 1 {
        assert(u.drop_last() =~= s.drop_last());
        assert(table_of(u) =~= table_of(s).insert(e.language@, e.stats@));
    } else {
        let t = s.drop_last();
        lemma_distinct_drop_last(s);
        lemma_table_update(t, i, e);
        assert(u.drop_last() =~= t.update(i, e));
        assert(s[i].language@ != s[s.len() - 1].language@);
        assert(table_of(u) =~= table_of(s).insert(e.language@, e.stats@));
    }
}

proof fn lemma_files_total_prefix(s: Seq<LanguageEntry>, i: int)
    requires
        0 <= i <= s.len(),
    ensures
        files_total(s.take(i)) <= files_total(s),
    decreases s.len() - i,
{
    if i < s.len() {
        lemma_files_total_prefix(s, i + 1);
        assert(s.take(i + 1).drop_last() =~= s.take(i));
    } else {
        assert(s.take(i) =~= s);
    }
}

proof fn lemma_files_total_bounds(s: Seq<LanguageEntry>, i: int)
    requires
        0 <= i < s.len(),
    ensures
        s[i].stats.file_count <= files_total(s),
    decreases s.len(),
{
    if i < s.len() - 1 {
        lemma_files_total_bounds(s.drop_last(), i);
    }
}

impl StatisticsManager {
    /// Language to totals.
    pub closed spec fn view(&self) -> Map<Seq<char>, Tally> {
        table_of(self.language_stats@)
    }

    /// The registry the manager counts by.
    pub closed spec fn registry(&self) -> Map<Seq<char>, (Seq<char>, LineCounter)> {
        self.registry@
    }

    /// Number of files counted, over all languages.
    pub closed spec fn total(&self) -> nat {
        files_total(self.language_stats@)
    }

    pub closed spec fn wf(&self) -> bool {
        &&& distinct_languages(self.language_stats@)
        &&& sorted_languages(self.language_stats@)
        &&& forall|i: int|
            0 <= i < self.language_stats.len() ==> (#[trigger] self.language_stats@[i]).stats.stats.wf()
        &&& files_total(self.language_stats@) <= u64::MAX
    }

    /// Whether one more file of `lang` with breakdown `stats` keeps every
    /// count, and the number of files counted, within `u64`.
    pub open spec fn can_count(&self, lang: Seq<char>, stats: FileStats) -> bool {
        &&& tally_fits(tally_sum(tally_of(self@, lang), file_tally(stats)))
        &&& self.total() + 1 <= u64::MAX
    }

    /// A manager with the standard registry and no file counted.
    pub fn new() -> (r: StatisticsManager)
        ensures
            r.wf(),
            r@ == Map::<Seq<char>, Tally>::empty(),
            r.total() == 0,
            r.registry() == Map::<Seq<char>, (Seq<char>, LineCounter)>::empty().insert(
                "md"@,
                ("Markdown"@, LineCounter::PlainText),
            ),
    {
        StatisticsManager::with_registry(Registry::standard())
    }

    /// A manager that counts by `registry`, with no file counted.
    pub fn with_registry(registry: Registry) -> (r: StatisticsManager)
        ensures
            r.wf(),
            r@ == Map::<Seq<char>, Tally>::empty(),
            r.total() == 0,
            r.registry() == registry@,
    {
        let r = StatisticsManager { registry, language_stats: Vec::new() };
        assert(r@ =~= Map::<Seq<char>, Tally>::empty());
        r
    }

    /// Number of files counted, over all languages.
    pub fn total_files(&self) -> (r: u64)
        requires
            self.wf(),
        ensures
            r == self.total(),
    {
        let mut sum: u64 = 0;
        let mut i: usize = 0;
        assert(self.language_stats@.take(0) =~= Seq::<LanguageEntry>::empty());
        while i < self.language_stats.len()
            invariant
                self.wf(),
                i <= self.language_stats.len(),
                sum == files_total(self.language_stats@.take(i as int)),
            decreases self.language_stats.len() - i,
        {
            let ghost s = self.language_stats@;
            proof {
                assert(s.take(i + 1).drop_last() =~= s.take(i as int));
                lemma_files_total_prefix(s, i + 1);
            }
            sum = sum + self.language_stats[i].stats.file_count;
            i = i + 1;
        }
        assert(self.language_stats@.take(i as int) =~= self.language_stats@);
        sum
    }

    /// The language of the file at `path`, or `None` when the file is not
    /// counted.
    pub fn classify(&self, path: &str) -> (r: Option<String>)
        ensures
            match r {
                Some(l) => language_of_path(self.registry(), path@) == Some(l@),
                None => language_of_path(self.registry(), path@) is None,
            },
    {
        match self.registry.resolve_path(path) {
            Some(b) => Some(b.language),
            None => None,
        }
    }

    /// The totals of `language`, if any file of it was counted.
    pub fn language_stats(&self, language: &str) -> (r: Option<LanguageStats>)
        requires
            self.wf(),
        ensures
            r is Some <==> self@.contains_key(language@),
            r matches Some(st) ==> st@ == self@[language@] && st.stats.wf(),
    {
        match self.find(language) {
            Some(i) => Some(self.language_stats[i].stats),
            None => None,
        }
    }

    /// The languages counted, each with its totals.
    pub fn entries(&self) -> (r: &Vec<LanguageEntry>)
        requires
            self.wf(),
        ensures
            table_of(r@) == self@,
            distinct_languages(r@),
            sorted_languages(r@),
            files_total(r@) == self.total(),
    {
        &self.language_stats
    }

    /// Counts the file at `filepath`, whose text is `content`, into the
    /// totals of its language, the language's entry being made on its first
    /// file. `Ok(false)`: the file is not classified and nothing changes.
    /// `Ok(true)`: it was counted. `Err`: a count would overflow, and nothing
    /// changes.
    pub fn process_file(&mut self, filepath: &str, content: &str) -> (r: Result<bool, CountOverflow>)
        requires
            old(self).wf(),
        ensures
            final(self).wf(),
            final(self).registry() == old(self).registry(),
            match resolve_path(old(self).registry(), filepath@) {
                None => r == Ok::<bool, CountOverflow>(false) && final(self)@ == old(self)@
                    && final(self).total() == old(self).total(),
                Some((lang, counter)) => if old(self).can_count(lang, counter.counted(content@)) {
                    &&& r == Ok::<bool, CountOverflow>(true)
                    &&& final(self)@ == record(old(self)@, old(self).registry(), filepath@, content@)
                    &&& final(self).total() == old(self).total() + 1
                } else {
                    &&& r == Err::<bool, CountOverflow>(CountOverflow)
                    &&& final(self)@ == old(self)@
                    &&& final(self).total() == old(self).total()
                },
            },
    {
        let binding = match self.registry.resolve_path(filepath) {
            Some(b) => b,
            None => return Ok(false),
        };
        let stats = binding.counter.count(content);
        let total = self.total_files();
        if total == u64::MAX {
            return Err(CountOverflow);
        }
        let ghost s = self.language_stats@;
        match self.find(binding.language.as_str()) {
            Some(i) => {
                let mut st = self.language_stats[i].stats;
                if !fits(&st, &stats) {
                    return Err(CountOverflow);
                }
                st.add(stats);
                let e = LanguageEntry { language: binding.language, stats: st };
                proof {
                    lemma_table_update(s, i as int, e);
                    lemma_files_total_bounds(s, i as int);
                }
                self.language_stats.set(i, e);
                proof {
                    assert(self.language_stats@ == s.update(i as int, e));
                    assert forall|j: int| 0 <= j < self.language_stats.len() implies (
                    #[trigger] self.language_stats@[j]).stats.stats.wf() by {
                        if j != i {
                            assert(self.language_stats@[j] == s[j]);
                        }
                    }
                }
            },
            None => {
                let mut st = LanguageStats::zero();
                st.add(stats);
                let e = LanguageEntry { language: binding.language, stats: st };
                proof {
                    lemma_table_entries(s);
                    assert forall|j: int| 0 <= j < s.len() implies #[trigger] s[j].language@
                        != e.language@ by {
                        assert(table_of(s).contains_key(s[j].language@));
                    }
                }
                let mut p: usize = 0;
                while p < self.language_stats.len() && str_before(
                    self.language_stats[p].language.as_str(),
                    e.language.as_str(),
                )
                    invariant
                        self.language_stats@ == s,
                        p <= s.len(),
                        forall|j: int| 0 <= j < p ==> name_before(#[trigger] s[j].language@, e.language@),
                    decreases s.len() - p,
                {
                    p = p + 1;
                }
                proof {
                    lemma_insert_entry(s, p as int, e);
                }
                self.language_stats.insert(p, e);
                proof {
                    let u = self.language_stats@;
                    assert forall|j: int| 0 <= j < u.len() implies (#[trigger] u[j]).stats.stats.wf() by {
                        if j < p {
                            assert(u[j] == s[j]);
                        } else if j > p {
                            assert(u[j] == s[j - 1]);
                        }
                    }
                }
            },
        }
        Ok(true)
    }

    fn find(&self, language: &str) -> (r: Option<usize>)
        requires
            self.wf(),
        ensures
            r is None ==> !self@.contains_key(language@),
            r matches Some(i) ==> i < self.language_stats.len()
                && self.language_stats@[i as int].language@ == language@
                && self@.contains_key(language@)
                && self@[language@] == self.language_stats@[i as int].stats@,
    {
        let lang = language.to_owned();
        let mut i: usize = 0;
        while i < self.language_stats.len()
            invariant
                self.wf(),
                i <= self.language_stats.len(),
                lang@ == language@,
                forall|j: int| 0 <= j < i ==> #[trigger] self.language_stats@[j].language@ != language@,
            decreases self.language_stats.len() - i,
        {
            if self.language_stats[i].language == lang {
                proof {
                    let s = self.language_stats@;
                    lemma_table_entries(s);
                    assert(s[i as int].language@ == language@);
                    assert(table_of(s).contains_key(s[i as int].language@));
                }
                return Some(i);
            }
            i = i + 1;
        }
        proof {
            lemma_table_absent(self.language_stats@, language@);
        }
        None
    }
}

/// Whether one more file with breakdown `b` can be added to `a` within `u64`.
fn fits(a: &LanguageStats, b: &FileStats) -> (r: bool)
    ensures
        r == a.can_add(*b),
{
    a.file_count < u64::MAX && b.lines <= u64::MAX - a.stats.lines && b.code <= u64::MAX
        - a.stats.code && b.comments <= u64::MAX - a.stats.comments && b.blanks <= u64::MAX
        - a.stats.blanks
}

} // verus!
