//! Per-language tallies and their merge.
//!
//! Each worker owns a private [`Tally`] while it traverses its share of
//! the tree; the aggregator then merges all worker tallies into one.
//! A tally is modelled as a map from language to a pair of counters:
//! how many files were counted and how many lines they held.

use vstd::multiset::Multiset;
use vstd::prelude::*;

use crate::lang::Language;

verus! {

/// Per-language counters: how many files were counted and how many
/// lines they held.
#[derive(Clone, Copy, Debug, PartialEq, Eq, Structural)]
pub struct LangResult {
    pub file_cnt: u64,
    pub line_cnt: u64,
}

impl LangResult {
    /// Fresh counters at zero.
    pub fn new() -> (r: LangResult)
        ensures
            r.file_cnt == 0,
            r.line_cnt == 0,
    {
        LangResult { file_cnt: 0, line_cnt: 0 }
    }
}

/// One result row: a language with its merged counters.
#[derive(Clone, Copy, Debug, PartialEq, Eq, Structural)]
pub struct LangOut {
    pub language: Language,
    pub num_files: u64,
    pub num_lines: u64,
}

/// The counters a tally map holds for `l`; an absent language counts
/// as zero.
pub open spec fn val_of(m: Map<Language, (nat, nat)>, l: Language) -> (nat, nat) {
    if m.dom().contains(l) {
        m[l]
    } else {
        (0nat, 0nat)
    }
}

/// `m` with `files` more files and `lines` more lines recorded
/// against `l`.
pub open spec fn bump(
    m: Map<Language, (nat, nat)>,
    l: Language,
    files: nat,
    lines: nat,
) -> Map<Language, (nat, nat)> {
    m.insert(l, (val_of(m, l).0 + files, val_of(m, l).1 + lines))
}

/// Pointwise sum of two tally maps.
pub open spec fn merge_maps(
    a: Map<Language, (nat, nat)>,
    b: Map<Language, (nat, nat)>,
) -> Map<Language, (nat, nat)> {
    Map::new(
        |l: Language| a.dom().contains(l) || b.dom().contains(l),
        |l: Language| (val_of(a, l).0 + val_of(b, l).0, val_of(a, l).1 + val_of(b, l).1),
    )
}

/// Whether merging `b` into `a` keeps every summed counter within
/// `u64`.
pub open spec fn fits_merge(a: Map<Language, (nat, nat)>, b: Map<Language, (nat, nat)>) -> bool {
    forall|l: Language|
        #[trigger] b.dom().contains(l) ==> val_of(a, l).0 + val_of(b, l).0 <= u64::MAX && val_of(
            a,
            l,
        ).1 + val_of(b, l).1 <= u64::MAX
}

/// Every counter of `m` fits in `u64`.
pub open spec fn fits_u64(m: Map<Language, (nat, nat)>) -> bool {
    forall|l: Language|
        #[trigger] m.dom().contains(l) ==> m[l].0 <= u64::MAX && m[l].1 <= u64::MAX
}

/// Pointwise sum of a sequence of tally maps, first to last.
pub open spec fn merge_seq_maps(s: Seq<Map<Language, (nat, nat)>>) -> Map<Language, (nat, nat)>
    decreases s.len(),
{
    if s.len() == 0 {
        Map::empty()
    } else {
        merge_maps(merge_seq_maps(s.drop_last()), s.last())
    }
}

/// Merging the empty tally changes nothing.
pub proof fn lemma_merge_maps_empty(a: Map<Language, (nat, nat)>)
    ensures
        merge_maps(a, Map::<Language, (nat, nat)>::empty()) == a,
        merge_maps(Map::<Language, (nat, nat)>::empty(), a) == a,
{
    assert(merge_maps(a, Map::<Language, (nat, nat)>::empty()) =~= a);
    assert(merge_maps(Map::<Language, (nat, nat)>::empty(), a) =~= a);
}

/// Recording into `b` and then merging is the same as merging and then
/// recording into the merge.
pub proof fn lemma_merge_bump(
    a: Map<Language, (nat, nat)>,
    b: Map<Language, (nat, nat)>,
    l: Language,
    files: nat,
    lines: nat,
)
    ensures
        merge_maps(a, bump(b, l, files, lines)) == bump(merge_maps(a, b), l, files, lines),
{
    assert(merge_maps(a, bump(b, l, files, lines)) =~= bump(merge_maps(a, b), l, files, lines));
}

/// Counters never shrink when a prefix of a merge grows to the whole.
pub proof fn lemma_merge_seq_prefix(s: Seq<Map<Language, (nat, nat)>>, i: int)
    requires
        0 <= i <= s.len(),
    ensures
        forall|l: Language|
            #![trigger val_of(merge_seq_maps(s.take(i)), l)]
            val_of(merge_seq_maps(s.take(i)), l).0 <= val_of(merge_seq_maps(s), l).0 && val_of(
                merge_seq_maps(s.take(i)),
                l,
            ).1 <= val_of(merge_seq_maps(s), l).1,
    decreases s.len(),
{
    if i == s.len() {
        assert(s.take(i) =~= s);
    } else {
        lemma_merge_seq_prefix(s.drop_last(), i);
        assert(s.drop_last().take(i) =~= s.take(i));
        assert forall|l: Language|
            val_of(#[trigger] merge_seq_maps(s.take(i)), l).0 <= val_of(merge_seq_maps(s), l).0
                && val_of(merge_seq_maps(s.take(i)), l).1 <= val_of(
                merge_seq_maps(s),
                l,
            ).1 by {
            assert(val_of(merge_seq_maps(s.drop_last().take(i)), l).0 <= val_of(
                merge_seq_maps(s.drop_last()),
                l,
            ).0 && val_of(merge_seq_maps(s.drop_last().take(i)), l).1 <= val_of(
                merge_seq_maps(s.drop_last()),
                l,
            ).1);
            assert(val_of(merge_seq_maps(s), l).0 == val_of(merge_seq_maps(s.drop_last()), l).0
                + val_of(s.last(), l).0);
            assert(val_of(merge_seq_maps(s), l).1 == val_of(merge_seq_maps(s.drop_last()), l).1
                + val_of(s.last(), l).1);
        }
    }
}

/// The tally of one pass over a run of counted files: each
/// observation is one file's language and line count.
pub open spec fn obs_tally(s: Seq<(Language, u64)>) -> Map<Language, (nat, nat)>
    decreases s.len(),
{
    if s.len() == 0 {
        Map::empty()
    } else {
        bump(obs_tally(s.drop_last()), s.last().0, 1, s.last().1 as nat)
    }
}

/// Counters never shrink when a prefix of a run grows to the whole.
pub proof fn lemma_obs_tally_prefix(s: Seq<(Language, u64)>, i: int)
    requires
        0 <= i <= s.len(),
    ensures
        forall|l: Language|
            #![trigger val_of(obs_tally(s.take(i)), l)]
            val_of(obs_tally(s.take(i)), l).0 <= val_of(obs_tally(s), l).0 && val_of(
                obs_tally(s.take(i)),
                l,
            ).1 <= val_of(obs_tally(s), l).1,
    decreases s.len(),
{
    if i == s.len() {
        assert(s.take(i) =~= s);
    } else {
        lemma_obs_tally_prefix(s.drop_last(), i);
        assert(s.drop_last().take(i) =~= s.take(i));
        assert forall|l: Language|
            val_of(#[trigger] obs_tally(s.take(i)), l).0 <= val_of(obs_tally(s), l).0 && val_of(
                obs_tally(s.take(i)),
                l,
            ).1 <= val_of(obs_tally(s), l).1 by {
            assert(val_of(obs_tally(s.drop_last().take(i)), l).0 <= val_of(
                obs_tally(s.drop_last()),
                l,
            ).0 && val_of(obs_tally(s.drop_last().take(i)), l).1 <= val_of(
                obs_tally(s.drop_last()),
                l,
            ).1);
        }
    }
}

/// The tally map described by a sequence of per-language entries.
pub open spec fn entries_tally(s: Seq<(Language, LangResult)>) -> Map<Language, (nat, nat)>
    decreases s.len(),
{
    if s.len() == 0 {
        Map::empty()
    } else {
        bump(
            entries_tally(s.drop_last()),
            s.last().0,
            s.last().1.file_cnt as nat,
            s.last().1.line_cnt as nat,
        )
    }
}

/// No language appears in two entries.
pub open spec fn distinct_langs(s: Seq<(Language, LangResult)>) -> bool {
    forall|i: int, j: int| 0 <= i < j < s.len() ==> s[i].0 != s[j].0
}

/// With distinct languages, the tally of an entry sequence is exactly
/// the entries themselves: one map binding per entry, nothing else.
pub proof fn lemma_entries_tally_props(s: Seq<(Language, LangResult)>)
    requires
        distinct_langs(s),
    ensures
        forall|l: Language|
            #[trigger] entries_tally(s).dom().contains(l) <==> exists|i: int|
                0 <= i < s.len() && (#[trigger] s[i]).0 == l,
        forall|i: int|
            0 <= i < s.len() ==> entries_tally(s)[(#[trigger] s[i]).0] == (
                s[i].1.file_cnt as nat,
                s[i].1.line_cnt as nat,
            ),
    decreases s.len(),
{
    if s.len() > 0 {
        let t = s.drop_last();
        let e = s.last();
        lemma_entries_tally_props(t);
        assert(forall|i: int| 0 <= i < t.len() ==> t[i] == s[i]);
        assert(!entries_tally(t).dom().contains(e.0)) by {
            if entries_tally(t).dom().contains(e.0) {
                let i = choose|i: int| 0 <= i < t.len() && (#[trigger] t[i]).0 == e.0;
                assert(s[i].0 == s[s.len() - 1].0);
            }
        }
        assert forall|l: Language| #[trigger]
            entries_tally(s).dom().contains(l) implies exists|i: int|
            0 <= i < s.len() && (#[trigger] s[i]).0 == l by {
            if l == e.0 {
                assert(s[s.len() - 1].0 == l);
            } else {
                let i = choose|i: int| 0 <= i < t.len() && (#[trigger] t[i]).0 == l;
                assert(s[i].0 == l);
            }
        }
        assert forall|l: Language| (exists|i: int|
            0 <= i < s.len() && (#[trigger] s[i]).0 == l) implies #[trigger]
            entries_tally(s).dom().contains(l) by {
            let i = choose|i: int| 0 <= i < s.len() && (#[trigger] s[i]).0 == l;
            if i < s.len() - 1 {
                assert(t[i].0 == l);
            }
        }
    }
}

/// A worker's running tally: one entry per language seen so far. The
/// view is the tally map the entries describe.
pub struct Tally {
    entries: Vec<(Language, LangResult)>,
}

impl View for Tally {
    type V = Map<Language, (nat, nat)>;

    closed spec fn view(&self) -> Map<Language, (nat, nat)> {
        entries_tally(self.entries@)
    }
}

/// Whether `files` more files and `lines` more lines can be recorded
/// against `l` in `m` without a counter leaving `u64`.
pub open spec fn can_add(m: Map<Language, (nat, nat)>, l: Language, files: nat, lines: nat) -> bool {
    val_of(m, l).0 + files <= u64::MAX && val_of(m, l).1 + lines <= u64::MAX
}

impl Tally {
    /// The tally's entries, one per language, in insertion order.
    pub closed spec fn entries_seq(self) -> Seq<(Language, LangResult)> {
        self.entries@
    }

    /// No language has two entries.
    pub closed spec fn wf(self) -> bool {
        distinct_langs(self.entries@)
    }

    /// The entries describe the view: one binding per entry.
    pub proof fn lemma_view_props(self)
        requires
            self.wf(),
        ensures
            forall|l: Language|
                #[trigger] self@.dom().contains(l) <==> exists|i: int|
                    0 <= i < self.entries_seq().len() && (#[trigger] self.entries_seq()[i]).0 == l,
            forall|i: int|
                0 <= i < self.entries_seq().len() ==> self@[(#[trigger] self.entries_seq()[i]).0]
                    == (
                    self.entries_seq()[i].1.file_cnt as nat,
                    self.entries_seq()[i].1.line_cnt as nat,
                ),
            distinct_langs(self.entries_seq()),
    {
        lemma_entries_tally_props(self.entries@);
        assert(self.entries_seq() == self.entries@);
    }

    /// An empty tally.
    pub fn new() -> (r: Tally)
        ensures
            r.wf(),
            r@ == Map::<Language, (nat, nat)>::empty(),
    {
        Tally { entries: Vec::new() }
    }

    /// How many languages have an entry.
    pub fn num_entries(&self) -> (r: usize)
        ensures
            r == self.entries_seq().len(),
    {
        self.entries.len()
    }

    /// The entry at position `i`.
    pub fn entry_at(&self, i: usize) -> (r: (Language, LangResult))
        requires
            i < self.entries_seq().len(),
        ensures
            r == self.entries_seq()[i as int],
    {
        self.entries[i]
    }

    /// Record `files` more files and `lines` more lines against
    /// `lang`. Returns false, leaving the tally unchanged, exactly
    /// when a counter would leave `u64`.
    pub fn add_counts(&mut self, lang: Language, files: u64, lines: u64) -> (r: bool)
        requires
            old(self).wf(),
        ensures
            final(self).wf(),
            r == can_add(old(self)@, lang, files as nat, lines as nat),
            r ==> final(self)@ == bump(old(self)@, lang, files as nat, lines as nat),
            !r ==> final(self)@ == old(self)@,
    {
        let n = self.entries.len();
        let mut i: usize = 0;
        while i < n
            invariant
                old(self).wf(),
                self.entries@ == old(self).entries@,
                n == self.entries@.len(),
                i <= n,
                forall|k: int| 0 <= k < i ==> (#[trigger] self.entries@[k]).0 != lang,
            decreases n - i,
        {
            if self.entries[i].0 == lang {
                let cur = self.entries[i].1;
                if files > u64::MAX - cur.file_cnt || lines > u64::MAX - cur.line_cnt {
                    proof {
                        lemma_entries_tally_props(self.entries@);
                        assert(old(self)@[lang] == (cur.file_cnt as nat, cur.line_cnt as nat));
                    }
                    return false;
                }
                let ghost prev = self.entries@;
                self.entries[i].1 = LangResult {
                    file_cnt: cur.file_cnt + files,
                    line_cnt: cur.line_cnt + lines,
                };
                proof {
                    let cur_s = self.entries@;
                    lemma_entries_tally_props(prev);
                    assert(forall|k: int|
                        0 <= k < cur_s.len() && k != i ==> cur_s[k] == prev[k]);
                    assert(cur_s[i as int].0 == lang);
                    assert(distinct_langs(cur_s));
                    lemma_entries_tally_props(cur_s);
                    assert(old(self)@[lang] == (cur.file_cnt as nat, cur.line_cnt as nat));
                    assert forall|l: Language|
                        bump(old(self)@, lang, files as nat, lines as nat).dom().contains(l)
                            <==> #[trigger] entries_tally(cur_s).dom().contains(l) by {
                        if l == lang {
                            assert(cur_s[i as int].0 == l);
                        } else {
                            if entries_tally(cur_s).dom().contains(l) {
                                let k = choose|k: int|
                                    0 <= k < cur_s.len() && (#[trigger] cur_s[k]).0 == l;
                                assert(prev[k].0 == l);
                            }
                            if old(self)@.dom().contains(l) {
                                let k = choose|k: int|
                                    0 <= k < prev.len() && (#[trigger] prev[k]).0 == l;
                                assert(cur_s[k].0 == l);
                            }
                        }
                    }
                    assert forall|l: Language| #[trigger]
                        entries_tally(cur_s).dom().contains(l) implies entries_tally(cur_s)[l]
                        == bump(old(self)@, lang, files as nat, lines as nat)[l] by {
                        let k = choose|k: int|
                            0 <= k < cur_s.len() && (#[trigger] cur_s[k]).0 == l;
                        if l == lang {
                            assert(k == i) by {
                                if k != i {
                                    assert(prev[k].0 == lang);
                                }
                            }
                        } else {
                            assert(k != i);
                            assert(prev[k] == cur_s[k]);
                            assert(old(self)@[l] == (
                                prev[k].1.file_cnt as nat,
                                prev[k].1.line_cnt as nat,
                            ));
                        }
                    }
                    assert(entries_tally(cur_s) =~= bump(
                        old(self)@,
                        lang,
                        files as nat,
                        lines as nat,
                    ));
                }
                return true;
            }
            i = i + 1;
        }
        let ghost prev = self.entries@;
        self.entries.push((lang, LangResult { file_cnt: files, line_cnt: lines }));
        proof {
            lemma_entries_tally_props(prev);
            assert(!old(self)@.dom().contains(lang)) by {
                if old(self)@.dom().contains(lang) {
                    let k = choose|k: int| 0 <= k < prev.len() && (#[trigger] prev[k]).0 == lang;
                }
            }
            assert(forall|k: int|
                0 <= k < prev.len() ==> (#[trigger] self.entries@[k]) == prev[k]);
            assert(distinct_langs(self.entries@)) by {
                assert(forall|k: int|
                    0 <= k < prev.len() ==> (#[trigger] self.entries@[k]).0 != lang);
            }
            assert(self.entries@.drop_last() =~= prev);
            assert(entries_tally(self.entries@) =~= bump(
                old(self)@,
                lang,
                files as nat,
                lines as nat,
            ));
        }
        true
    }

    /// Record one counted file of language `lang` holding `lines`
    /// lines. Returns false, leaving the tally unchanged, exactly when
    /// a counter would leave `u64`.
    pub fn record(&mut self, lang: Language, lines: u64) -> (r: bool)
        requires
            old(self).wf(),
        ensures
            final(self).wf(),
            r == can_add(old(self)@, lang, 1, lines as nat),
            r ==> final(self)@ == bump(old(self)@, lang, 1, lines as nat),
            !r ==> final(self)@ == old(self)@,
    {
        self.add_counts(lang, 1, lines)
    }

    /// The counters recorded for `lang`, if any.
    pub fn get(&self, lang: Language) -> (r: Option<LangResult>)
        requires
            self.wf(),
        ensures
            match r {
                Some(c) => self@.dom().contains(lang) && self@[lang] == (
                    c.file_cnt as nat,
                    c.line_cnt as nat,
                ),
                None => !self@.dom().contains(lang),
            },
    {
        let n = self.entries.len();
        let mut i: usize = 0;
        while i < n
            invariant
                self.wf(),
                n == self.entries@.len(),
                i <= n,
                forall|k: int| 0 <= k < i ==> (#[trigger] self.entries@[k]).0 != lang,
            decreases n - i,
        {
            if self.entries[i].0 == lang {
                proof {
                    lemma_entries_tally_props(self.entries@);
                }
                return Some(self.entries[i].1);
            }
            i = i + 1;
        }
        proof {
            lemma_entries_tally_props(self.entries@);
            if self@.dom().contains(lang) {
                let k = choose|k: int|
                    0 <= k < self.entries@.len() && (#[trigger] self.entries@[k]).0 == lang;
            }
        }
        None
    }

    /// Merge `other` into this tally: afterwards this tally is the
    /// pointwise sum of the two. The caller must know the sums fit.
    pub fn merge_from(&mut self, other: &Tally)
        requires
            old(self).wf(),
            other.wf(),
            fits_merge(old(self)@, other@),
        ensures
            final(self).wf(),
            final(self)@ == merge_maps(old(self)@, other@),
    {
        let n = other.num_entries();
        let mut i: usize = 0;
        while i < n
            invariant
                other.wf(),
                fits_merge(old(self)@, other@),
                n == other.entries_seq().len(),
                i <= n,
                self.wf(),
                self@ == merge_maps(old(self)@, entries_tally(other.entries_seq().take(i as int))),
            decreases n - i,
        {
            let (l, c) = other.entry_at(i);
            let ghost pre = entries_tally(other.entries_seq().take(i as int));
            proof {
                other.lemma_view_props();
                lemma_entries_tally_props(other.entries_seq().take(i as int));
                assert(!pre.dom().contains(l)) by {
                    if pre.dom().contains(l) {
                        let k = choose|k: int|
                            0 <= k < i && (#[trigger] other.entries_seq().take(i as int)[k]).0 == l;
                        assert(other.entries_seq()[k].0 == other.entries_seq()[i as int].0);
                    }
                }
                assert(other@.dom().contains(l) && other@[l] == (
                    c.file_cnt as nat,
                    c.line_cnt as nat,
                ));
                assert(val_of(self@, l) == val_of(old(self)@, l));
            }
            let ok = self.add_counts(l, c.file_cnt, c.line_cnt);
            assert(ok);
            proof {
                lemma_merge_bump(old(self)@, pre, l, c.file_cnt as nat, c.line_cnt as nat);
                let next = other.entries_seq().take(i + 1 as int);
                assert(next.drop_last() =~= other.entries_seq().take(i as int));
                assert(next.last() == other.entries_seq()[i as int]);
                assert(entries_tally(next) == bump(pre, l, c.file_cnt as nat, c.line_cnt as nat));
            }
            i = i + 1;
        }
        proof {
            assert(other.entries_seq().take(n as int) =~= other.entries_seq());
        }
    }

    /// Merge `other` into this tally, first checking that every summed
    /// counter fits in `u64`. Returns false, leaving this tally
    /// unchanged, exactly when one would not.
    pub fn try_merge(&mut self, other: &Tally) -> (r: bool)
        requires
            old(self).wf(),
            other.wf(),
        ensures
            final(self).wf(),
            r == fits_merge(old(self)@, other@),
            r ==> final(self)@ == merge_maps(old(self)@, other@),
            !r ==> final(self)@ == old(self)@,
    {
        let n = other.num_entries();
        let mut i: usize = 0;
        while i < n
            invariant
                other.wf(),
                self.wf(),
                self.entries@ == old(self).entries@,
                n == other.entries_seq().len(),
                i <= n,
                forall|k: int|
                    0 <= k < i ==> val_of(old(self)@, (#[trigger] other.entries_seq()[k]).0).0
                        + other.entries_seq()[k].1.file_cnt <= u64::MAX && val_of(
                        old(self)@,
                        other.entries_seq()[k].0,
                    ).1 + other.entries_seq()[k].1.line_cnt <= u64::MAX,
            decreases n - i,
        {
            let (l, c) = other.entry_at(i);
            let fits = match self.get(l) {
                Some(cur) => !(c.file_cnt > u64::MAX - cur.file_cnt || c.line_cnt > u64::MAX
                    - cur.line_cnt),
                None => true,
            };
            if !fits {
                proof {
                    other.lemma_view_props();
                    assert(other@.dom().contains(l) && other@[l] == (
                        c.file_cnt as nat,
                        c.line_cnt as nat,
                    ));
                }
                return false;
            }
            i = i + 1;
        }
        proof {
            other.lemma_view_props();
            assert(fits_merge(old(self)@, other@)) by {
                assert forall|l: Language| #[trigger] other@.dom().contains(l) implies val_of(
                    old(self)@,
                    l,
                ).0 + val_of(other@, l).0 <= u64::MAX && val_of(old(self)@, l).1 + val_of(
                    other@,
                    l,
                ).1 <= u64::MAX by {
                    let k = choose|k: int|
                        0 <= k < other.entries_seq().len() && (#[trigger] other.entries_seq()[k]).0
                            == l;
                }
            }
        }
        self.merge_from(other);
        true
    }
}

/// Count a run of files in a single pass: the tally of the
/// observations, each one file's language and line count, first to
/// last. Returns `None`, and no result, exactly when a counter would
/// leave `u64`.
pub fn tally_observations(obs: &Vec<(Language, u64)>) -> (r: Option<Tally>)
    ensures
        r is Some <==> fits_u64(obs_tally(obs@)),
        r is Some ==> r->Some_0.wf() && r->Some_0@ == obs_tally(obs@),
{
    let mut acc = Tally::new();
    let n = obs.len();
    let mut i: usize = 0;
    proof {
        assert(obs@.take(0) =~= Seq::<(Language, u64)>::empty());
    }
    while i < n
        invariant
            n == obs@.len(),
            i <= n,
            acc.wf(),
            acc@ == obs_tally(obs@.take(i as int)),
        decreases n - i,
    {
        let (lang, lines) = obs[i];
        let ghost prefix = obs_tally(obs@.take(i as int));
        let ok = acc.record(lang, lines);
        proof {
            let next = obs@.take(i + 1 as int);
            assert(next.drop_last() =~= obs@.take(i as int));
            assert(next.last() == obs@[i as int]);
            assert(obs_tally(next) == bump(prefix, lang, 1, lines as nat));
        }
        if !ok {
            proof {
                let next_t = obs_tally(obs@.take(i + 1 as int));
                assert(next_t.dom().contains(lang));
                assert(val_of(next_t, lang).0 > u64::MAX || val_of(next_t, lang).1 > u64::MAX);
                lemma_obs_tally_prefix(obs@, i + 1);
                assert(obs_tally(obs@).dom().contains(lang));
                assert(!fits_u64(obs_tally(obs@)));
            }
            return None;
        }
        i = i + 1;
    }
    proof {
        assert(obs@.take(n as int) =~= obs@);
        acc.lemma_view_props();
        assert(fits_u64(acc@)) by {
            assert forall|l: Language| #[trigger] acc@.dom().contains(l) implies acc@[l].0
                <= u64::MAX && acc@[l].1 <= u64::MAX by {
                let k = choose|k: int|
                    0 <= k < acc.entries_seq().len() && (#[trigger] acc.entries_seq()[k]).0 == l;
            }
        }
    }
    Some(acc)
}

/// Fan every worker tally into one: the result is the pointwise sum of
/// them all. Returns `None`, and no result, exactly when a summed
/// counter would leave `u64`.
pub fn merge_tallies(tallies: &Vec<Tally>) -> (r: Option<Tally>)
    requires
        forall|i: int| 0 <= i < tallies@.len() ==> (#[trigger] tallies@[i]).wf(),
    ensures
        r is Some <==> fits_u64(merge_seq_maps(tallies@.map_values(|t: Tally| t@))),
        r is Some ==> r->Some_0.wf() && r->Some_0@ == merge_seq_maps(
            tallies@.map_values(|t: Tally| t@),
        ),
{
    let ghost vs = tallies@.map_values(|t: Tally| t@);
    let mut acc = Tally::new();
    let n = tallies.len();
    let mut i: usize = 0;
    proof {
        lemma_merge_maps_empty(Map::<Language, (nat, nat)>::empty());
        assert(vs.take(0) =~= Seq::<Map<Language, (nat, nat)>>::empty());
    }
    while i < n
        invariant
            vs == tallies@.map_values(|t: Tally| t@),
            forall|k: int| 0 <= k < tallies@.len() ==> (#[trigger] tallies@[k]).wf(),
            n == tallies@.len(),
            i <= n,
            acc.wf(),
            acc@ == merge_seq_maps(vs.take(i as int)),
        decreases n - i,
    {
        let ghost prefix = merge_seq_maps(vs.take(i as int));
        let ok = acc.try_merge(&tallies[i]);
        proof {
            let next = vs.take(i + 1 as int);
            assert(next.drop_last() =~= vs.take(i as int));
            assert(next.last() == vs[i as int]);
            assert(merge_seq_maps(next) == merge_maps(prefix, vs[i as int]));
        }
        if !ok {
            proof {
                let l = choose|l: Language|
                    #[trigger] tallies@[i as int]@.dom().contains(l) && !(val_of(prefix, l).0
                        + val_of(tallies@[i as int]@, l).0 <= u64::MAX && val_of(prefix, l).1
                        + val_of(tallies@[i as int]@, l).1 <= u64::MAX);
                let merged = merge_seq_maps(vs.take(i + 1 as int));
                assert(merged.dom().contains(l));
                assert(val_of(merged, l).0 == val_of(prefix, l).0 + val_of(
                    tallies@[i as int]@,
                    l,
                ).0);
                assert(val_of(merged, l).1 == val_of(prefix, l).1 + val_of(
                    tallies@[i as int]@,
                    l,
                ).1);
                lemma_merge_seq_prefix(vs, i + 1);
                assert(val_of(merged, l).0 <= val_of(merge_seq_maps(vs), l).0 && val_of(
                    merged,
                    l,
                ).1 <= val_of(merge_seq_maps(vs), l).1);
                assert(merge_seq_maps(vs).dom().contains(l));
                assert(!fits_u64(merge_seq_maps(vs)));
            }
            return None;
        }
        i = i + 1;
    }
    proof {
        assert(vs.take(n as int) =~= vs);
        acc.lemma_view_props();
        assert(fits_u64(acc@)) by {
            assert forall|l: Language| #[trigger] acc@.dom().contains(l) implies acc@[l].0
                <= u64::MAX && acc@[l].1 <= u64::MAX by {
                let k = choose|k: int|
                    0 <= k < acc.entries_seq().len() && (#[trigger] acc.entries_seq()[k]).0 == l;
            }
        }
    }
    Some(acc)
}

/// Result rows in order of line count, largest first.
pub open spec fn sorted_desc(s: Seq<LangOut>) -> bool {
    forall|i: int, j: int| 0 <= i < j < s.len() ==> s[i].num_lines >= s[j].num_lines
}

/// The result row for one tally entry.
pub open spec fn entry_to_out(e: (Language, LangResult)) -> LangOut {
    LangOut { language: e.0, num_files: e.1.file_cnt, num_lines: e.1.line_cnt }
}

/// The result rows for a sequence of tally entries, one for one.
pub open spec fn outs_of(s: Seq<(Language, LangResult)>) -> Seq<LangOut> {
    s.map_values(|e: (Language, LangResult)| entry_to_out(e))
}

/// Sort result rows by line count, largest first. The rows are
/// permuted and nothing else; rows with equal line counts keep no
/// promised order.
pub fn sort_rows_desc(rows: Vec<LangOut>) -> (r: Vec<LangOut>)
    ensures
        sorted_desc(r@),
        r@.to_multiset() == rows@.to_multiset(),
{
    broadcast use vstd::seq_lib::group_to_multiset_ensures;
    broadcast use vstd::multiset::group_multiset_axioms;

    let mut input = rows;
    let ghost orig = input@;
    let mut out: Vec<LangOut> = Vec::new();
    proof {
        assert(out@.to_multiset().add(input@.to_multiset()) =~= orig.to_multiset());
    }
    while input.len() > 0
        invariant
            sorted_desc(out@),
            out@.to_multiset().add(input@.to_multiset()) == orig.to_multiset(),
            forall|k: int|
                0 <= k < input@.len() && out@.len() > 0 ==> (#[trigger] input@[k]).num_lines
                    <= out@.last().num_lines,
        decreases input@.len(),
    {
        broadcast use vstd::seq_lib::group_to_multiset_ensures;
        broadcast use vstd::multiset::group_multiset_axioms;

        let mut best: usize = 0;
        let mut j: usize = 1;
        while j < input.len()
            invariant
                input@.len() > 0,
                best < input@.len(),
                j <= input@.len(),
                forall|k: int|
                    0 <= k < j ==> (#[trigger] input@[k]).num_lines <= input@[best as int].num_lines,
            decreases input@.len() - j,
        {
            if input[j].num_lines > input[best].num_lines {
                best = j;
            }
            j = j + 1;
        }
        let ghost pre_in = input@;
        let ghost pre_out = out@;
        let m = input.remove(best);
        out.push(m);
        proof {
            assert(pre_in.to_multiset().count(m) >= 1) by {
                assert(pre_in[best as int] == m);
                assert(pre_in.contains(m));
            }
            assert(out@.to_multiset().add(input@.to_multiset()) =~= orig.to_multiset()) by {
                assert(out@.to_multiset() =~= pre_out.to_multiset().insert(m));
                assert(input@.to_multiset() =~= pre_in.to_multiset().remove(m));
            }
            assert forall|k: int|
                0 <= k < input@.len() && out@.len() > 0 implies (#[trigger] input@[k]).num_lines
                <= out@.last().num_lines by {
                if k < best {
                    assert(input@[k] == pre_in[k]);
                } else {
                    assert(input@[k] == pre_in[k + 1]);
                }
            }
        }
    }
    proof {
        assert(input@.to_multiset() =~= Multiset::<LangOut>::empty());
        assert(out@.to_multiset() =~= orig.to_multiset());
    }
    out
}

/// Turn a finished tally into result rows sorted by line count,
/// largest first. The rows are exactly the tally's entries, one per
/// language; ties in line count keep no promised order.
pub fn map_to_vec(tally: &Tally) -> (r: Vec<LangOut>)
    requires
        tally.wf(),
    ensures
        sorted_desc(r@),
        r@.to_multiset() == outs_of(tally.entries_seq()).to_multiset(),
{
    let n = tally.num_entries();
    let mut rows: Vec<LangOut> = Vec::new();
    let mut i: usize = 0;
    while i < n
        invariant
            tally.wf(),
            n == tally.entries_seq().len(),
            i <= n,
            rows@ == outs_of(tally.entries_seq().take(i as int)),
        decreases n - i,
    {
        let (l, c) = tally.entry_at(i);
        rows.push(LangOut { language: l, num_files: c.file_cnt, num_lines: c.line_cnt });
        proof {
            assert(rows@ =~= outs_of(tally.entries_seq().take(i + 1 as int)));
        }
        i = i + 1;
    }
    proof {
        assert(tally.entries_seq().take(n as int) =~= tally.entries_seq());
    }
    sort_rows_desc(rows)
}

} // verus!
