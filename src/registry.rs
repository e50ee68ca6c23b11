use vstd::prelude::*;
use crate::classify::{extension, extension_of};
use crate::lines::LineCounter;

verus! {

/// One extension bound to a language and to the counter for its files.
pub struct Registration {
    pub extension: String,
    pub language: String,
    pub counter: LineCounter,
}

/// The language of a file, and how its lines are counted.
pub struct Binding {
    pub language: String,
    pub counter: LineCounter,
}

/// Which extensions are counted, as which language, and how. Built once,
/// then only read.
pub struct Registry {
    entries: Vec<Registration>,
}

/// What the registrations in `s` say of extension `ext`: the latest one wins.
pub open spec fn lookup(s: Seq<Registration>, ext: Seq<char>) -> Option<(Seq<char>, LineCounter)>
    decreases s.len(),
{
    if s.len() == 0 {
        None
    } else if s.last().extension@ == ext {
        Some((s.last().language@, s.last().counter))
    } else {
        lookup(s.drop_last(), ext)
    }
}

/// The language and counter for a path, from its extension.
pub open spec fn resolve_path(
    reg: Map<Seq<char>, (Seq<char>, LineCounter)>,
    path: Seq<char>,
) -> Option<(Seq<char>, LineCounter)> {
    match extension_of(path) {
        Some(e) => if reg.contains_key(e) {
            Some(reg[e])
        } else {
            None
        },
        None => None,
    }
}

/// The language of a path, from its extension.
pub open spec fn language_of_path(
    reg: Map<Seq<char>, (Seq<char>, LineCounter)>,
    path: Seq<char>,
) -> Option<Seq<char>> {
    match resolve_path(reg, path) {
        Some((lang, _)) => Some(lang),
        None => None,
    }
}

impl Registry {
    /// Extension to (language, counter).
    pub closed spec fn view(&self) -> Map<Seq<char>, (Seq<char>, LineCounter)> {
        Map::new(
            |e: Seq<char>| lookup(self.entries@, e) is Some,
            |e: Seq<char>| lookup(self.entries@, e)->0,
        )
    }

    /// A registry that knows no extension.
    pub fn empty() -> (r: Registry)
        ensures
            r@ == Map::<Seq<char>, (Seq<char>, LineCounter)>::empty(),
    {
        let r = Registry { entries: Vec::new() };
        assert(r@ =~= Map::<Seq<char>, (Seq<char>, LineCounter)>::empty());
        r
    }

    /// The registry this tool starts with: `md` files are Markdown, counted as
    /// plain text.
    pub fn standard() -> (r: Registry)
        ensures
            r@ == Map::<Seq<char>, (Seq<char>, LineCounter)>::empty().insert(
                "md"@,
                ("Markdown"@, LineCounter::PlainText),
            ),
    {
        let mut r = Registry::empty();
        r.register("md", "Markdown", LineCounter::PlainText);
        r
    }

    /// Binds `extension` (without its dot) to `language` and `counter`; a
    /// binding the extension had before is replaced.
    pub fn register(&mut self, extension: &str, language: &str, counter: LineCounter)
        ensures
            final(self)@ == old(self)@.insert(extension@, (language@, counter)),
    {
        let reg = Registration {
            extension: extension.to_owned(),
            language: language.to_owned(),
            counter,
        };
        let ghost before = self.entries@;
        self.entries.push(reg);
        proof {
            assert(self.entries@.drop_last() =~= before);
        }
        assert(self@ =~= old(self)@.insert(extension@, (language@, counter)));
    }

    /// The language and counter bound to `ext`, if any.
    pub fn resolve(&self, ext: &String) -> (r: Option<Binding>)
        ensures
            r is Some <==> self@.contains_key(ext@),
            r matches Some(b) ==> b.language@ == self@[ext@].0 && b.counter == self@[ext@].1,
    {
        let mut i: usize = self.entries.len();
        assert(self.entries@.take(i as int) =~= self.entries@);
        while i > 0
            invariant
                i <= self.entries.len(),
                lookup(self.entries@, ext@) == lookup(self.entries@.take(i as int), ext@),
            decreases i,
        {
            let ghost t = self.entries@.take(i as int);
            assert(t.drop_last() =~= self.entries@.take(i - 1));
            if self.entries[i - 1].extension == *ext {
                return Some(
                    Binding {
                        language: self.entries[i - 1].language.clone(),
                        counter: self.entries[i - 1].counter,
                    },
                );
            }
            i = i - 1;
        }
        None
    }

    /// The language and counter for the file at `path`, from its extension.
    pub fn resolve_path(&self, path: &str) -> (r: Option<Binding>)
        ensures
            r is Some <==> resolve_path(self@, path@) is Some,
            r matches Some(b) ==> resolve_path(self@, path@) == Some((b.language@, b.counter)),
    {
        match extension(path) {
            Some(e) => self.resolve(&e),
            None => None,
        }
    }
}

} // verus!
