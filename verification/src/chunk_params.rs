//! The parameter block of a start marker: `key="text"` and `key=number`
//! pairs in any order. The `regex` crate finds the pairs; what each pair
//! means is decided here.

use vstd::prelude::*;
use vstd::string::*;
use crate::error::{ErrorView, ExemplifyError};
use crate::patterns::{capture_groups, regex_captures};
use crate::text::{parse_number, parse_u32, same_text};
use crate::views::result_view;

verus! {

/// The pattern of one parameter: a key of letters, `=`, and either a quoted
/// text of letters, digits, white space, `-` and `/`, or a run of digits.
/// Groups 2 and 3 hold the key and the text of a quoted parameter, groups 5
/// and 6 the key and the digits of a numeric one.
pub const PARAMETER_PATTERN: &'static str =
    "(([a-zA-Z]+)\\s?=\\s?\"([a-zA-Z\\s0-9\\-/]+)\")|(([a-zA-Z]+)\\s?=\\s?([0-9]+))";

/// The parameters that a start marker gives to its chunk.
#[derive(Clone, Debug)]
pub struct ChunkParams {
    pub name: String,
    pub part: Option<u32>,
    pub indentation: Option<u32>,
    pub title: Option<String>,
    pub language: Option<String>,
}

/// The mathematical value of [`ChunkParams`].
pub struct ChunkParamsView {
    pub name: Seq<char>,
    pub part: Option<u32>,
    pub indentation: Option<u32>,
    pub title: Option<Seq<char>>,
    pub language: Option<Seq<char>>,
}

impl View for ChunkParams {
    type V = ChunkParamsView;

    open spec fn view(&self) -> ChunkParamsView {
        ChunkParamsView {
            name: self.name@,
            part: self.part,
            indentation: self.indentation,
            title: self.title.deep_view(),
            language: self.language.deep_view(),
        }
    }
}

impl DeepView for ChunkParams {
    type V = ChunkParamsView;

    open spec fn deep_view(&self) -> ChunkParamsView {
        self@
    }
}

/// The parameters before any pair was read: no name, nothing else.
pub open spec fn no_params() -> ChunkParamsView {
    ChunkParamsView {
        name: Seq::empty(),
        part: None,
        indentation: None,
        title: None,
        language: None,
    }
}

/// Group `index` of a match; a group that the match does not have took no
/// part in it.
pub open spec fn group(groups: Seq<Option<Seq<char>>>, index: int) -> Option<Seq<char>> {
    if 0 <= index < groups.len() {
        groups[index]
    } else {
        None
    }
}

/// The parameters after a quoted pair: `name`, `title` and `language` are
/// set, any other key is ignored.
pub open spec fn with_text(params: ChunkParamsView, key: Seq<char>, value: Seq<char>)
    -> ChunkParamsView {
    if key == "name"@ {
        ChunkParamsView { name: value, ..params }
    } else if key == "title"@ {
        ChunkParamsView { title: Some(value), ..params }
    } else if key == "language"@ {
        ChunkParamsView { language: Some(value), ..params }
    } else {
        params
    }
}

/// The error for a `part` or `indentation` value that is no 32-bit number.
pub open spec fn invalid_parameter(
    source_name: Seq<char>,
    line: nat,
    key: Seq<char>,
    raw_value: Seq<char>,
) -> ErrorView {
    ErrorView::InvalidParameter { source_name, line, key, raw_value }
}

/// The parameters after a numeric pair: `part` and `indentation` are set to
/// the number that the digits write, or the run fails where they write none
/// that fits in 32 bits; any other key is ignored.
pub open spec fn with_number(
    params: ChunkParamsView,
    key: Seq<char>,
    raw_value: Seq<char>,
    source_name: Seq<char>,
    line: nat,
) -> Result<ChunkParamsView, ErrorView> {
    if key == "part"@ {
        match parse_u32(raw_value) {
            Some(number) => Ok(ChunkParamsView { part: Some(number), ..params }),
            None => Err(invalid_parameter(source_name, line, key, raw_value)),
        }
    } else if key == "indentation"@ {
        match parse_u32(raw_value) {
            Some(number) => Ok(ChunkParamsView { indentation: Some(number), ..params }),
            None => Err(invalid_parameter(source_name, line, key, raw_value)),
        }
    } else {
        Ok(params)
    }
}

/// The parameters after one match of the parameter pattern.
pub open spec fn with_match(
    params: ChunkParamsView,
    groups: Seq<Option<Seq<char>>>,
    source_name: Seq<char>,
    line: nat,
) -> Result<ChunkParamsView, ErrorView> {
    let quoted = match (group(groups, 2), group(groups, 3)) {
        (Some(key), Some(value)) => with_text(params, key, value),
        _ => params,
    };
    match (group(groups, 5), group(groups, 6)) {
        (Some(key), Some(raw_value)) => with_number(quoted, key, raw_value, source_name, line),
        _ => Ok(quoted),
    }
}

/// The parameters after all matches, read from left to right: a later pair
/// overrides an earlier one with the same key, and the first value that is
/// no number ends the run.
pub open spec fn with_matches(
    matches: Seq<Seq<Option<Seq<char>>>>,
    source_name: Seq<char>,
    line: nat,
) -> Result<ChunkParamsView, ErrorView>
    decreases matches.len(),
{
    if matches.len() == 0 {
        Ok(no_params())
    } else {
        match with_matches(matches.drop_last(), source_name, line) {
            Ok(params) => with_match(params, matches.last(), source_name, line),
            Err(error) => Err(error),
        }
    }
}

/// The parameters that the matches of a start-marker line give: those of
/// [`with_matches`], which must name the example.
pub open spec fn params_of_matches(
    matches: Seq<Seq<Option<Seq<char>>>>,
    source_name: Seq<char>,
    line: nat,
) -> Result<ChunkParamsView, ErrorView> {
    match with_matches(matches, source_name, line) {
        Ok(params) => if params.name.len() == 0 {
            Err(ErrorView::MissingName { source_name, line })
        } else {
            Ok(params)
        },
        Err(error) => Err(error),
    }
}

/// The parameters of the start-marker line `text`, which is line `line` of
/// `source_name`.
pub open spec fn chunk_params(text: Seq<char>, source_name: Seq<char>, line: nat) -> Result<
    ChunkParamsView,
    ErrorView,
> {
    match regex_captures(PARAMETER_PATTERN@, text) {
        Some(matches) => params_of_matches(matches, source_name, line),
        None => Err(ErrorView::Grammar { pattern: PARAMETER_PATTERN@ }),
    }
}

/// Reads a `part` or `indentation` value.
fn read_number(raw_value: &String, key: &String, source_name: &str, line: usize) -> (number:
    Result<u32, ExemplifyError>)
    ensures
        match parse_u32(raw_value@) {
            Some(value) => number == Ok::<u32, ExemplifyError>(value),
            None => number is Err && number->Err_0@ == invalid_parameter(
                source_name@,
                line as nat,
                key@,
                raw_value@,
            ),
        },
{
    match parse_number(raw_value.as_str()) {
        Some(value) => Ok(value),
        None => Err(
            ExemplifyError::InvalidParameter {
                source_name: String::from_str(source_name),
                line,
                key: key.clone(),
                raw_value: raw_value.clone(),
            },
        ),
    }
}

/// Applies one match of the parameter pattern to the parameters read so far.
fn apply_match(
    params: ChunkParams,
    groups: &Vec<Option<String>>,
    source_name: &str,
    line: usize,
) -> (applied: Result<ChunkParams, ExemplifyError>)
    ensures
        result_view(applied) == with_match(
            params@,
            groups.deep_view(),
            source_name@,
            line as nat,
        ),
{
    let mut params = params;
    let ghost before = params@;
    let ghost all = groups.deep_view();
    if groups.len() > 3 {
        if let (Some(key), Some(value)) = (&groups[2], &groups[3]) {
            if same_text(key.as_str(), "name") {
                params.name = value.clone();
            } else if same_text(key.as_str(), "title") {
                params.title = Some(value.clone());
            } else if same_text(key.as_str(), "language") {
                params.language = Some(value.clone());
            }
        }
    }
    proof {
        assert(groups.len() > 2 ==> all[2] == groups@[2].deep_view());
        assert(groups.len() > 3 ==> all[3] == groups@[3].deep_view());
        assert(groups.len() > 5 ==> all[5] == groups@[5].deep_view());
        assert(groups.len() > 6 ==> all[6] == groups@[6].deep_view());
    }
    let ghost quoted = params@;
    if groups.len() > 6 {
        if let (Some(key), Some(raw_value)) = (&groups[5], &groups[6]) {
            if same_text(key.as_str(), "part") {
                match read_number(raw_value, key, source_name, line) {
                    Ok(number) => {
                        params.part = Some(number);
                    },
                    Err(error) => {
                        return Err(error);
                    },
                }
            } else if same_text(key.as_str(), "indentation") {
                match read_number(raw_value, key, source_name, line) {
                    Ok(number) => {
                        params.indentation = Some(number);
                    },
                    Err(error) => {
                        return Err(error);
                    },
                }
            }
        }
    }
    Ok(params)
}

/// The parameters that the matches of the parameter pattern in a
/// start-marker line give to the chunk. `matches` holds, for each match from
/// left to right, the text of its capture groups.
pub fn params_from_captures(
    matches: &Vec<Vec<Option<String>>>,
    source_name: &str,
    line_number: usize,
) -> (params: Result<ChunkParams, ExemplifyError>)
    ensures
        result_view(params) == params_of_matches(
            matches.deep_view(),
            source_name@,
            line_number as nat,
        ),
{
    let ghost all = matches.deep_view();
    let mut params = ChunkParams {
        name: String::new(),
        part: None,
        indentation: None,
        title: None,
        language: None,
    };
    let mut k: usize = 0;
    while k < matches.len()
        invariant
            k <= matches.len(),
            all == matches.deep_view(),
            with_matches(all.take(k as int), source_name@, line_number as nat) == Ok::<
                ChunkParamsView,
                ErrorView,
            >(params@),
        decreases matches.len() - k,
    {
        proof {
            assert(all.take(k + 1).drop_last() =~= all.take(k as int));
            assert(all.take(k + 1).last() == matches@[k as int].deep_view());
        }
        match apply_match(params, &matches[k], source_name, line_number) {
            Ok(applied) => {
                params = applied;
            },
            Err(error) => {
                proof {
                    lemma_failure_is_final(all, k + 1, source_name@, line_number as nat);
                }
                return Err(error);
            },
        }
        k = k + 1;
    }
    proof {
        assert(all.take(k as int) =~= all);
    }
    if params.name.as_str().unicode_len() == 0 {
        Err(ExemplifyError::MissingName { source_name: String::from_str(source_name), line: line_number })
    } else {
        Ok(params)
    }
}

/// Once a prefix of the matches has failed, the whole fails with the same
/// error.
proof fn lemma_failure_is_final(
    matches: Seq<Seq<Option<Seq<char>>>>,
    k: int,
    source_name: Seq<char>,
    line: nat,
)
    requires
        0 <= k <= matches.len(),
        with_matches(matches.take(k), source_name, line) is Err,
    ensures
        with_matches(matches, source_name, line) == with_matches(
            matches.take(k),
            source_name,
            line,
        ),
    decreases matches.len() - k,
{
    if k == matches.len() {
        assert(matches.take(k) =~= matches);
    } else {
        assert(matches.take(k + 1).drop_last() =~= matches.take(k));
        lemma_failure_is_final(matches, k + 1, source_name, line);
    }
}

/// The parameters of a start-marker line. The pairs are found by the `regex`
/// crate; the result is what [`params_from_captures`] makes of them.
pub fn extract_chunk_params(line: &str, source_name: &str, line_number: usize) -> (params:
    Result<ChunkParams, ExemplifyError>)
    ensures
        result_view(params) == chunk_params(line@, source_name@, line_number as nat),
{
    match capture_groups(PARAMETER_PATTERN, line) {
        Ok(matches) => params_from_captures(&matches, source_name, line_number),
        Err(_) => Err(ExemplifyError::Grammar { pattern: String::from_str(PARAMETER_PATTERN) }),
    }
}

} // verus!
