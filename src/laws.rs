use vstd::prelude::*;
use crate::aggregate::{record, record_all, tally_of};
use crate::lines::LineCounter;
use crate::registry::{language_of_path, resolve_path};
use crate::stats::{file_tally, tally_sum, zero_tally, Tally};

verus! {

/// What the file `f` (path, content) adds to the totals of `lang`.
pub open spec fn contribution(
    reg: Map<Seq<char>, (Seq<char>, LineCounter)>,
    f: (Seq<char>, Seq<char>),
    lang: Seq<char>,
) -> Tally {
    match resolve_path(reg, f.0) {
        Some((l, c)) => if l == lang {
            file_tally(c.counted(f.1))
        } else {
            zero_tally()
        },
        None => zero_tally(),
    }
}

/// What all of `files` add to the totals of `lang`.
pub open spec fn contributions(
    reg: Map<Seq<char>, (Seq<char>, LineCounter)>,
    files: Seq<(Seq<char>, Seq<char>)>,
    lang: Seq<char>,
) -> Tally
    decreases files.len(),
{
    if files.len() == 0 {
        zero_tally()
    } else {
        tally_sum(contributions(reg, files.drop_last(), lang), contribution(reg, files.last(), lang))
    }
}

/// How many of `files` are of language `lang`.
pub open spec fn files_of(
    reg: Map<Seq<char>, (Seq<char>, LineCounter)>,
    files: Seq<(Seq<char>, Seq<char>)>,
    lang: Seq<char>,
) -> nat
    decreases files.len(),
{
    if files.len() == 0 {
        0
    } else {
        files_of(reg, files.drop_last(), lang) + if language_of_path(reg, files.last().0) == Some(
            lang,
        ) {
            1nat
        } else {
            0nat
        }
    }
}

proof fn lemma_record_all_closed(
    t: Map<Seq<char>, Tally>,
    reg: Map<Seq<char>, (Seq<char>, LineCounter)>,
    files: Seq<(Seq<char>, Seq<char>)>,
)
    ensures
        forall|lang: Seq<char>|
            #[trigger] record_all(t, reg, files).contains_key(lang) <==> (t.contains_key(lang)
                || contributions(reg, files, lang).files > 0),
        forall|lang: Seq<char>|
            #[trigger] tally_of(record_all(t, reg, files), lang) == tally_sum(
                tally_of(t, lang),
                contributions(reg, files, lang),
            ),
    decreases files.len(),
{
    if files.len() > 0 {
        lemma_record_all_closed(t, reg, files.drop_last());
        let prev = record_all(t, reg, files.drop_last());
        let f = files.last();
        assert forall|lang: Seq<char>|
            #[trigger] record_all(t, reg, files).contains_key(lang) <==> (t.contains_key(lang)
                || contributions(reg, files, lang).files > 0) by {
            assert(tally_of(prev, lang) == tally_sum(
                tally_of(t, lang),
                contributions(reg, files.drop_last(), lang),
            ));
        }
        assert forall|lang: Seq<char>|
            #[trigger] tally_of(record_all(t, reg, files), lang) == tally_sum(
                tally_of(t, lang),
                contributions(reg, files, lang),
            ) by {
            assert(tally_of(prev, lang) == tally_sum(
                tally_of(t, lang),
                contributions(reg, files.drop_last(), lang),
            ));
        }
    } else {
        assert forall|lang: Seq<char>|
            #[trigger] tally_of(record_all(t, reg, files), lang) == tally_sum(
                tally_of(t, lang),
                contributions(reg, files, lang),
            ) by {
            assert(tally_sum(tally_of(t, lang), zero_tally()) == tally_of(t, lang));
        }
    }
}

proof fn lemma_contributions_remove(
    reg: Map<Seq<char>, (Seq<char>, LineCounter)>,
    files: Seq<(Seq<char>, Seq<char>)>,
    k: int,
    lang: Seq<char>,
)
    requires
        0 <= k < files.len(),
    ensures
        contributions(reg, files, lang) == tally_sum(
            contributions(reg, files.remove(k), lang),
            contribution(reg, files[k], lang),
        ),
    decreases files.len(),
{
    if k == files.len() - 1 {
        assert(files.remove(k) =~= files.drop_last());
    } else {
        lemma_contributions_remove(reg, files.drop_last(), k, lang);
        assert(files.remove(k).drop_last() =~= files.drop_last().remove(k));
        assert(files.remove(k).last() == files.last());
    }
}

proof fn lemma_contributions_multiset(
    reg: Map<Seq<char>, (Seq<char>, LineCounter)>,
    a: Seq<(Seq<char>, Seq<char>)>,
    b: Seq<(Seq<char>, Seq<char>)>,
    lang: Seq<char>,
)
    requires
        a.to_multiset() == b.to_multiset(),
    ensures
        contributions(reg, a, lang) == contributions(reg, b, lang),
    decreases a.len(),
{
    broadcast use vstd::seq_lib::group_to_multiset_ensures;

    if a.len() == 0 {
        assert(a.to_multiset().len() == a.len());
        assert(b.to_multiset().len() == b.len());
        assert(b.len() == 0);
    } else {
        let x = a.last();
        let a0 = a.drop_last();
        assert(a0.push(x) =~= a);
        assert(a.to_multiset().count(x) > 0);
        assert(b.contains(x));
        let k = choose|k: int| 0 <= k < b.len() && b[k] == x;
        let b0 = b.remove(k);
        assert(b0.to_multiset() =~= a0.to_multiset());
        lemma_contributions_multiset(reg, a0, b0, lang);
        lemma_contributions_remove(reg, b, k, lang);
    }
}

proof fn lemma_files_of(
    reg: Map<Seq<char>, (Seq<char>, LineCounter)>,
    files: Seq<(Seq<char>, Seq<char>)>,
    lang: Seq<char>,
)
    ensures
        contributions(reg, files, lang).files == files_of(reg, files, lang),
    decreases files.len(),
{
    if files.len() > 0 {
        lemma_files_of(reg, files.drop_last(), lang);
    }
}

/// Counting a file that is not classified leaves the table as it was.
pub proof fn law_unclassified_ignored(
    t: Map<Seq<char>, Tally>,
    reg: Map<Seq<char>, (Seq<char>, LineCounter)>,
    path: Seq<char>,
    content: Seq<char>,
)
    requires
        resolve_path(reg, path) is None,
    ensures
        record(t, reg, path, content) == t,
{
}

/// Counting files in two batches, one after the other, gives the table that
/// counting them all in one run gives.
pub proof fn law_batches(
    t: Map<Seq<char>, Tally>,
    reg: Map<Seq<char>, (Seq<char>, LineCounter)>,
    a: Seq<(Seq<char>, Seq<char>)>,
    b: Seq<(Seq<char>, Seq<char>)>,
)
    ensures
        record_all(record_all(t, reg, a), reg, b) == record_all(t, reg, a + b),
    decreases b.len(),
{
    if b.len() == 0 {
        assert(a + b =~= a);
    } else {
        law_batches(t, reg, a, b.drop_last());
        assert((a + b).drop_last() =~= a + b.drop_last());
        assert((a + b).last() == b.last());
    }
}

/// The order in which files are counted does not matter: the same files in
/// any order give the same table.
pub proof fn law_order_irrelevant(
    t: Map<Seq<char>, Tally>,
    reg: Map<Seq<char>, (Seq<char>, LineCounter)>,
    a: Seq<(Seq<char>, Seq<char>)>,
    b: Seq<(Seq<char>, Seq<char>)>,
)
    requires
        a.to_multiset() == b.to_multiset(),
    ensures
        record_all(t, reg, a) == record_all(t, reg, b),
{
    lemma_record_all_closed(t, reg, a);
    lemma_record_all_closed(t, reg, b);
    let ra = record_all(t, reg, a);
    let rb = record_all(t, reg, b);
    assert forall|lang: Seq<char>| #[trigger] ra.contains_key(lang) == rb.contains_key(lang) by {
        lemma_contributions_multiset(reg, a, b, lang);
    }
    assert forall|lang: Seq<char>| ra.contains_key(lang) implies #[trigger] ra[lang] == rb[lang] by {
        lemma_contributions_multiset(reg, a, b, lang);
        assert(tally_of(ra, lang) == tally_of(rb, lang));
    }
    assert(ra =~= rb);
}

/// Starting from an empty table, the file count of a language is the number
/// of counted files of that language, and a language has an entry only if
/// some counted file is of it.
pub proof fn law_file_count(
    reg: Map<Seq<char>, (Seq<char>, LineCounter)>,
    files: Seq<(Seq<char>, Seq<char>)>,
    lang: Seq<char>,
)
    ensures
        tally_of(record_all(Map::empty(), reg, files), lang).files == files_of(reg, files, lang),
        record_all(Map::empty(), reg, files).contains_key(lang) <==> files_of(reg, files, lang) > 0,
{
    lemma_record_all_closed(Map::empty(), reg, files);
    lemma_files_of(reg, files, lang);
    assert(tally_of(record_all(Map::empty(), reg, files), lang) == tally_sum(
        tally_of(Map::empty(), lang),
        contributions(reg, files, lang),
    ));
    assert(record_all(Map::empty(), reg, files).contains_key(lang) <==> (Map::<
        Seq<char>,
        Tally,
    >::empty().contains_key(lang) || contributions(reg, files, lang).files > 0));
}

} // verus!
