//! Exclusion rules: patterns compiled once before a scan, then tested
//! against the final name component of every path met during the
//! traversal. A name that matches any rule is excluded, and an
//! excluded directory's whole subtree is pruned.

use vstd::prelude::*;

verus! {

#[verifier::external_type_specification]
#[verifier::external_body]
pub struct ExRegex(regex::Regex);

/// Whether `regex::Regex::new` accepts `pattern`.
pub uninterp spec fn regex_valid(pattern: Seq<char>) -> bool;

/// Whether the regular expression `pattern` matches anywhere in
/// `text`.
pub uninterp spec fn regex_match(pattern: Seq<char>, text: Seq<char>) -> bool;

/// One compiled exclusion rule: a compiled regular expression kept
/// beside the pattern text it came from. Only [`compile_rule`] builds
/// one, so the two always agree.
pub struct CompiledRule {
    pattern: String,
    re: regex::Regex,
}

impl CompiledRule {
    /// The pattern this rule was compiled from.
    pub closed spec fn spec_pattern(self) -> Seq<char> {
        self.pattern@
    }
}

/// Relies on `regex::Regex::new`: compilation succeeds exactly on the
/// patterns the regex grammar accepts, and depends on the pattern
/// alone. On failure the returned message names the pattern and the
/// reason.
#[verifier::external_body]
fn compile_rule(pattern: &str) -> (r: Result<CompiledRule, String>)
    ensures
        r is Ok <==> regex_valid(pattern@),
        r is Ok ==> r->Ok_0.spec_pattern() == pattern@,
{
    match regex::Regex::new(pattern) {
        Ok(re) => Ok(CompiledRule { pattern: pattern.to_owned(), re }),
        Err(e) => Err(format!("Invalid regex pattern '{pattern}': {e}")),
    }
}

/// Relies on `regex::Regex::is_match`: whether the compiled expression
/// matches anywhere in `text`; the answer depends only on the rule's
/// pattern and on `text`.
#[verifier::external_body]
fn rule_is_match(rule: &CompiledRule, text: &str) -> (r: bool)
    ensures
        r == regex_match(rule.spec_pattern(), text@),
{
    rule.re.is_match(text)
}

/// The compiled exclusion rules of one scan, shared read-only by every
/// worker.
pub struct ExclusionFilter {
    rules: Vec<CompiledRule>,
}

impl ExclusionFilter {
    /// The pattern texts of the compiled rules, in the order they were
    /// given.
    pub closed spec fn patterns(self) -> Seq<Seq<char>> {
        self.rules@.map_values(|r: CompiledRule| r.spec_pattern())
    }

    /// Whether `name` matches any of the rules.
    pub open spec fn spec_excluded(self, name: Seq<char>) -> bool {
        exists|i: int| 0 <= i < self.patterns().len() && regex_match(#[trigger] self.patterns()[i], name)
    }

    /// Compile every pattern, failing on the first invalid one with a
    /// message naming it. On success the filter holds exactly the
    /// given patterns, in order.
    pub fn compile(patterns: &Vec<String>) -> (r: Result<ExclusionFilter, String>)
        ensures
            r is Ok <==> (forall|i: int|
                0 <= i < patterns@.len() ==> regex_valid(#[trigger] patterns@[i]@)),
            r is Ok ==> r->Ok_0.patterns() == patterns@.map_values(|p: String| p@),
            r is Err ==> exists|i: int|
                0 <= i < patterns@.len() && !regex_valid(#[trigger] patterns@[i]@),
    {
        let n = patterns.len();
        let mut rules: Vec<CompiledRule> = Vec::new();
        let mut i: usize = 0;
        while i < n
            invariant
                n == patterns@.len(),
                i <= n,
                rules@.len() == i,
                forall|k: int| 0 <= k < i ==> regex_valid(#[trigger] patterns@[k]@),
                forall|k: int|
                    0 <= k < i ==> (#[trigger] rules@[k]).spec_pattern() == patterns@[k]@,
            decreases n - i,
        {
            match compile_rule(patterns[i].as_str()) {
                Ok(rule) => rules.push(rule),
                Err(e) => {
                    return Err(e);
                },
            }
            i = i + 1;
        }
        let f = ExclusionFilter { rules };
        proof {
            assert(f.patterns() =~= patterns@.map_values(|p: String| p@));
        }
        Ok(f)
    }

    /// Whether any rule matches `name`, the final name component of a
    /// path. The first match short-circuits.
    pub fn should_exclude(&self, name: &str) -> (r: bool)
        ensures
            r == self.spec_excluded(name@),
    {
        let n = self.rules.len();
        let mut i: usize = 0;
        while i < n
            invariant
                n == self.rules@.len(),
                i <= n,
                forall|k: int| 0 <= k < i ==> !regex_match(#[trigger] self.patterns()[k], name@),
            decreases n - i,
        {
            if rule_is_match(&self.rules[i], name) {
                proof {
                    assert(regex_match(self.patterns()[i as int], name@));
                }
                return true;
            }
            i = i + 1;
        }
        false
    }
}

} // verus!
