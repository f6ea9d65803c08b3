//! The finished result of a scan, as handed to the presentation
//! layer, and the choice of rendering format.

use vstd::prelude::*;

use crate::lang::str_eq;
use crate::tally::LangOut;

verus! {

/// How results are rendered.
#[derive(Clone, Copy, Debug, PartialEq, Eq, Structural)]
pub enum Format {
    Json,
    Table,
}

/// Parse an output format name: `"json"` or `"table"`. Any other name
/// is handed back unchanged as the error.
pub fn parse_format(format: &str) -> (r: Result<Format, String>)
    ensures
        format@ == "json"@ ==> r is Ok && r->Ok_0 == Format::Json,
        format@ == "table"@ ==> r is Ok && r->Ok_0 == Format::Table,
        format@ != "json"@ && format@ != "table"@ ==> r is Err && r->Err_0@ == format@,
{
    proof {
        reveal_strlit("json");
        reveal_strlit("table");
        assert("json"@.len() == 4);
        assert("table"@.len() == 5);
    }
    if str_eq(format, "json") {
        Ok(Format::Json)
    } else if str_eq(format, "table") {
        Ok(Format::Table)
    } else {
        Err(format.to_owned())
    }
}

impl core::str::FromStr for Format {
    type Err = String;

    fn from_str(format: &str) -> Result<Format, String> {
        parse_format(format)
    }
}

/// Sum of the rows' file counts.
pub open spec fn sum_files(s: Seq<LangOut>) -> nat
    decreases s.len(),
{
    if s.len() == 0 {
        0
    } else {
        sum_files(s.drop_last()) + s.last().num_files as nat
    }
}

/// Sum of the rows' line counts.
pub open spec fn sum_lines(s: Seq<LangOut>) -> nat
    decreases s.len(),
{
    if s.len() == 0 {
        0
    } else {
        sum_lines(s.drop_last()) + s.last().num_lines as nat
    }
}

/// A prefix never sums to more than the whole.
pub proof fn lemma_sum_prefix(s: Seq<LangOut>, i: int)
    requires
        0 <= i <= s.len(),
    ensures
        sum_files(s.take(i)) <= sum_files(s),
        sum_lines(s.take(i)) <= sum_lines(s),
    decreases s.len(),
{
    if i == s.len() {
        assert(s.take(i) =~= s);
    } else {
        lemma_sum_prefix(s.drop_last(), i);
        assert(s.drop_last().take(i) =~= s.take(i));
    }
}

/// The finished result of one scan: rows sorted by line count, their
/// totals, and the elapsed time when it was asked for. Built once at
/// the end of a scan and never changed.
pub struct Output {
    pub languages: Vec<LangOut>,
    pub total_num_files: u64,
    pub total_num_lines: u64,
    pub elapsed_ms: Option<u64>,
}

impl Output {
    /// Build the final output: the totals are the simple sums of the
    /// rows' counters. `None` exactly when a total would leave `u64`.
    pub fn new(languages: Vec<LangOut>, elapsed_ms: Option<u64>) -> (r: Option<Output>)
        ensures
            r is Some <==> sum_files(languages@) <= u64::MAX && sum_lines(languages@)
                <= u64::MAX,
            r is Some ==> {
                &&& r->Some_0.languages == languages
                &&& r->Some_0.total_num_files == sum_files(languages@)
                &&& r->Some_0.total_num_lines == sum_lines(languages@)
                &&& r->Some_0.elapsed_ms == elapsed_ms
            },
    {
        let n = languages.len();
        let mut files: u64 = 0;
        let mut lines: u64 = 0;
        let mut i: usize = 0;
        while i < n
            invariant
                n == languages@.len(),
                i <= n,
                files == sum_files(languages@.take(i as int)),
                lines == sum_lines(languages@.take(i as int)),
            decreases n - i,
        {
            let row = languages[i];
            proof {
                assert(languages@.take(i + 1 as int).drop_last() =~= languages@.take(i as int));
                assert(languages@.take(i + 1 as int).last() == languages@[i as int]);
            }
            files = match files.checked_add(row.num_files) {
                Some(v) => v,
                None => {
                    proof {
                        lemma_sum_prefix(languages@, i + 1);
                    }
                    return None;
                },
            };
            lines = match lines.checked_add(row.num_lines) {
                Some(v) => v,
                None => {
                    proof {
                        lemma_sum_prefix(languages@, i + 1);
                    }
                    return None;
                },
            };
            i = i + 1;
        }
        proof {
            assert(languages@.take(n as int) =~= languages@);
        }
        Some(
            Output {
                languages,
                total_num_files: files,
                total_num_lines: lines,
                elapsed_ms,
            },
        )
    }
}

} // verus!
