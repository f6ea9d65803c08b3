//! Per-entry decisions of the directory walker.
//!
//! For every entry the walker meets it decides, from the entry's final
//! name component and kind alone: prune it (and its whole subtree)
//! because an exclusion rule matches, descend into it, count it as a
//! classified file, or pass it over.

use vstd::prelude::*;
use vstd::string::StrSliceExecFns;

use crate::filter::ExclusionFilter;
use crate::lang::{classify_extension, lower_seq, spec_get_language, Language};

verus! {

/// The extension of a file name: what follows the last dot, except
/// that a leading dot (a hidden file's) starts no extension. A name
/// without such a dot has none.
pub open spec fn spec_ext(name: Seq<char>) -> Option<Seq<char>>
    decreases name.len(),
{
    if name.len() <= 1 {
        None
    } else if name.last() == '.' {
        Some(Seq::empty())
    } else {
        match spec_ext(name.drop_last()) {
            Some(e) => Some(e.push(name.last())),
            None => None,
        }
    }
}

/// A name has an extension exactly when a dot stands after its first
/// character.
pub proof fn lemma_spec_ext_exists(name: Seq<char>)
    ensures
        (spec_ext(name) is Some) <==> (exists|j: int| 1 <= j < name.len() && name[j] == '.'),
    decreases name.len(),
{
    if name.len() <= 1 {
    } else if name.last() == '.' {
        assert(name[name.len() - 1] == '.');
    } else {
        let t = name.drop_last();
        lemma_spec_ext_exists(t);
        assert(forall|k: int| 0 <= k < t.len() ==> t[k] == name[k]);
        if spec_ext(name) is Some {
            let j = choose|j: int| 1 <= j < t.len() && t[j] == '.';
            assert(name[j] == '.');
        }
        if exists|j: int| 1 <= j < name.len() && name[j] == '.' {
            let j = choose|j: int| 1 <= j < name.len() && name[j] == '.';
            assert(j < name.len() - 1);
            assert(t[j] == '.');
        }
    }
}

/// The extension is what follows the last dot that stands after the
/// name's first character.
pub proof fn lemma_spec_ext_at(name: Seq<char>, j: int)
    requires
        1 <= j < name.len(),
        name[j] == '.',
        forall|k: int| j < k < name.len() ==> name[k] != '.',
    ensures
        spec_ext(name) == Some(name.subrange(j + 1, name.len() as int)),
    decreases name.len(),
{
    if j == name.len() - 1 {
        assert(name.last() == '.');
        assert(name.subrange(name.len() as int, name.len() as int) =~= Seq::<char>::empty());
    } else {
        let t = name.drop_last();
        assert(name.last() != '.');
        assert(t[j] == '.');
        assert(forall|k: int| j < k < t.len() ==> t[k] == name[k] && name[k] != '.');
        lemma_spec_ext_at(t, j);
        assert(t.subrange(j + 1, t.len() as int).push(name.last()) =~= name.subrange(
            j + 1,
            name.len() as int,
        ));
    }
}

/// The extension of the file name `name`, if it has one.
pub fn extension_of(name: &str) -> (r: Option<&str>)
    ensures
        match r {
            Some(e) => spec_ext(name@) == Some(e@),
            None => spec_ext(name@) is None,
        },
{
    let n = name.unicode_len();
    let mut i: usize = n;
    while i > 1
        invariant
            n == name@.len(),
            i <= n,
            forall|k: int| i <= k < n ==> name@[k] != '.',
        decreases i,
    {
        let c = name.get_char(i - 1);
        if c == '.' {
            let e = name.substring_char(i, n);
            proof {
                assert(name@[i - 1] == '.');
                lemma_spec_ext_at(name@, i - 1);
            }
            return Some(e);
        }
        i = i - 1;
    }
    proof {
        lemma_spec_ext_exists(name@);
        if spec_ext(name@) is Some {
            let j = choose|j: int| 1 <= j < name@.len() && name@[j] == '.';
        }
    }
    None
}

/// The language of a file name: the language its extension, taken
/// case-insensitively, maps to. A name without an extension, or with
/// an unknown one, has none and is passed over without an error.
pub open spec fn spec_classify_file(name: Seq<char>) -> Option<Language> {
    match spec_ext(name) {
        Some(e) => spec_get_language(lower_seq(e)),
        None => None,
    }
}

/// Classify a file by its name's extension.
pub fn classify_file(name: &str) -> (r: Option<Language>)
    ensures
        r == spec_classify_file(name@),
{
    match extension_of(name) {
        Some(e) => classify_extension(e),
        None => None,
    }
}

/// What the walker does with one directory entry.
#[derive(Clone, Copy, Debug, PartialEq, Eq, Structural)]
pub enum EntryAction {
    /// The name matches an exclusion rule: skip the entry, and for a
    /// directory the whole subtree under it.
    Prune,
    /// An unexcluded directory: walk its children.
    Descend,
    /// An unexcluded file of a recognised language: count its lines.
    Count(Language),
    /// An unexcluded file of no recognised language: pass it over.
    Ignore,
}

/// Decide what to do with one entry, from its final name component and
/// whether it is a directory.
pub fn visit_entry(filter: &ExclusionFilter, name: &str, is_dir: bool) -> (r: EntryAction)
    ensures
        filter.spec_excluded(name@) ==> r == EntryAction::Prune,
        !filter.spec_excluded(name@) && is_dir ==> r == EntryAction::Descend,
        !filter.spec_excluded(name@) && !is_dir ==> r == (match spec_classify_file(name@) {
            Some(l) => EntryAction::Count(l),
            None => EntryAction::Ignore,
        }),
{
    if filter.should_exclude(name) {
        return EntryAction::Prune;
    }
    if is_dir {
        return EntryAction::Descend;
    }
    match classify_file(name) {
        Some(l) => EntryAction::Count(l),
        None => EntryAction::Ignore,
    }
}

} // verus!
