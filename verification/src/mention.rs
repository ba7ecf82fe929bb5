//! Mentions: the things a message can point at, each written as a URI and read back
//! from one.

use crate::strings::decimal_string;
use crate::strings::file_name;
use crate::strings::find_char;
use crate::strings::parse_u32;
use crate::strings::spec_decimal;
use crate::strings::spec_file_name;
use crate::strings::spec_find;
use crate::strings::spec_option_view;
use crate::strings::spec_pair_views;
use crate::strings::spec_parse_u32;
use crate::strings::spec_starts_with;
use crate::strings::str_eq;
use crate::strings::strip_prefix;
use std::ops::Range;
use vstd::prelude::*;
use vstd::string::StrSliceExecFns;
use vstd::string::StringExecFns;

verus! {

/// What a message can point at.
#[derive(Clone, Debug, PartialEq, Eq)]
pub enum MentionUri {
    File(String),
    Symbol { path: String, name: String, line_range: Range<u32> },
    Thread(String),
    TextThread(String),
    Rule(String),
    Selection { path: String, line_range: Range<u32> },
}

/// A mention as a value.
pub enum MentionUriView {
    File(Seq<char>),
    Symbol { path: Seq<char>, name: Seq<char>, line_range: Range<u32> },
    Thread(Seq<char>),
    TextThread(Seq<char>),
    Rule(Seq<char>),
    Selection { path: Seq<char>, line_range: Range<u32> },
}

/// Why a string is no mention.
#[derive(Clone, Copy, Debug, PartialEq, Eq)]
pub enum MentionUriError {
    /// The string is no URL.
    InvalidUrl,
    /// The line range does not start with `L`.
    MissingLinePrefix,
    /// The line range has no colon between its two numbers.
    MissingLineSeparator,
    /// The first line is no number.
    InvalidLineStart,
    /// The last line is no number.
    InvalidLineEnd,
    /// A line is numbered 0: lines are numbered from 1.
    LineNumberZero,
    /// The one query parameter is not `symbol`.
    InvalidQueryParameter,
    /// There is more than one query parameter.
    TooManyQueryPairs,
    /// A `zed` URL names neither a thread nor a rule.
    InvalidZedUrl,
    /// The scheme is neither `file` nor `zed`.
    UnrecognizedScheme,
}

impl View for MentionUri {
    type V = MentionUriView;

    open spec fn view(&self) -> MentionUriView {
        match self {
            MentionUri::File(path) => MentionUriView::File(path@),
            MentionUri::Symbol { path, name, line_range } => MentionUriView::Symbol {
                path: path@,
                name: name@,
                line_range: *line_range,
            },
            MentionUri::Thread(thread) => MentionUriView::Thread(thread@),
            MentionUri::TextThread(path) => MentionUriView::TextThread(path@),
            MentionUri::Rule(rule) => MentionUriView::Rule(rule@),
            MentionUri::Selection { path, line_range } => MentionUriView::Selection {
                path: path@,
                line_range: *line_range,
            },
        }
    }
}

/// The parts of a URL that a mention is read from.
#[derive(Clone, Debug, PartialEq, Eq)]
pub struct ParsedUrl {
    pub scheme: String,
    pub path: String,
    pub fragment: Option<String>,
    pub query: Option<String>,
}

/// What `url::Url::parse` makes of `input`: nothing where it refuses it, and else the
/// scheme, the path, the fragment and the query of the URL it gives.
pub uninterp spec fn spec_parse_url(input: Seq<char>) -> Option<
    (Seq<char>, Seq<char>, Option<Seq<char>>, Option<Seq<char>>),
>;

/// The pairs of names and values that `form_urlencoded::parse` reads from `query`.
pub uninterp spec fn spec_query_pairs(query: Seq<char>) -> Seq<(Seq<char>, Seq<char>)>;

/// Parses `input` with `url::Url::parse` and hands out the URL's scheme, path, fragment
/// and query as they stand in the URL. The contract gives what the parser returns a
/// name and claims nothing else of it.
#[verifier::external_body]
fn parse_url(input: &str) -> (parsed: Option<ParsedUrl>)
    ensures
        match parsed {
            Some(parsed) => spec_parse_url(input@) == Some(
                (
                    parsed.scheme@,
                    parsed.path@,
                    spec_option_view(parsed.fragment),
                    spec_option_view(parsed.query),
                ),
            ),
            None => spec_parse_url(input@).is_none(),
        },
{
    match url::Url::parse(input) {
        Ok(url) => Some(
            ParsedUrl {
                scheme: url.scheme().to_string(),
                path: url.path().to_string(),
                fragment: url.fragment().map(|fragment| fragment.to_string()),
                query: url.query().map(|query| query.to_string()),
            },
        ),
        Err(_) => None,
    }
}

/// Reads the pairs of a query string with `form_urlencoded::parse`, as
/// `Url::query_pairs` does. The contract gives what that returns a name and claims
/// nothing else of it.
#[verifier::external_body]
fn query_pairs(query: &str) -> (pairs: Vec<(String, String)>)
    ensures
        spec_pair_views(pairs@) == spec_query_pairs(query@),
{
    url::form_urlencoded::parse(query.as_bytes()).map(
        |(name, value)| (name.into_owned(), value.into_owned()),
    ).collect()
}

/// The number of a line in a URI, counted from 0: the number written, less one.
pub open spec fn spec_line(s: Seq<char>, invalid: MentionUriError) -> Result<
    u32,
    MentionUriError,
> {
    match spec_parse_u32(s) {
        Some(n) => if n == 0 {
            Err(MentionUriError::LineNumberZero)
        } else {
            Ok((n - 1) as u32)
        },
        None => Err(invalid),
    }
}

/// The line range that a fragment stands for: `L`, the first line, a colon, the last
/// line, both counted from 1.
pub open spec fn spec_line_range(fragment: Seq<char>) -> Result<Range<u32>, MentionUriError> {
    if !spec_starts_with(fragment, seq!['L']) {
        Err(MentionUriError::MissingLinePrefix)
    } else {
        let range = fragment.subrange(1, fragment.len() as int);
        let colon = spec_find(range, ':', 0);
        if colon >= range.len() {
            Err(MentionUriError::MissingLineSeparator)
        } else {
            match spec_line(range.subrange(0, colon), MentionUriError::InvalidLineStart) {
                Err(error) => Err(error),
                Ok(start) => match spec_line(
                    range.subrange(colon + 1, range.len() as int),
                    MentionUriError::InvalidLineEnd,
                ) {
                    Err(error) => Err(error),
                    Ok(end) => Ok(Range { start, end }),
                },
            }
        }
    }
}

/// The mention that the parts of a URL stand for. A `file` URL without fragment is a
/// file; one with a fragment is a selection of lines, or a symbol where its one query
/// parameter is `symbol`. A `zed` URL is a thread or a rule, by its path.
pub open spec fn spec_mention(
    scheme: Seq<char>,
    path: Seq<char>,
    fragment: Option<Seq<char>>,
    pairs: Seq<(Seq<char>, Seq<char>)>,
) -> Result<MentionUriView, MentionUriError> {
    if scheme == "file"@ {
        match fragment {
            Some(fragment) => match spec_line_range(fragment) {
                Err(error) => Err(error),
                Ok(line_range) => if pairs.len() == 0 {
                    Ok(MentionUriView::Selection { path, line_range })
                } else if pairs.len() == 1 {
                    if pairs[0].0 == "symbol"@ {
                        Ok(MentionUriView::Symbol { path, name: pairs[0].1, line_range })
                    } else {
                        Err(MentionUriError::InvalidQueryParameter)
                    }
                } else {
                    Err(MentionUriError::TooManyQueryPairs)
                },
            },
            None => Ok(MentionUriView::File(path)),
        }
    } else if scheme == "zed"@ {
        if spec_starts_with(path, "/agent/thread/"@) {
            Ok(
                MentionUriView::Thread(
                    path.subrange("/agent/thread/"@.len() as int, path.len() as int),
                ),
            )
        } else if spec_starts_with(path, "/agent/rule/"@) {
            Ok(MentionUriView::Rule(path.subrange("/agent/rule/"@.len() as int, path.len() as int)))
        } else {
            Err(MentionUriError::InvalidZedUrl)
        }
    } else {
        Err(MentionUriError::UnrecognizedScheme)
    }
}

/// The result of reading a mention, as a value.
pub open spec fn spec_result_view(result: Result<MentionUri, MentionUriError>) -> Result<
    MentionUriView,
    MentionUriError,
> {
    match result {
        Ok(mention) => Ok(mention@),
        Err(error) => Err(error),
    }
}

/// A line range written out: `L`, the first line, a colon, the last line, both counted
/// from 1.
pub open spec fn spec_line_range_text(line_range: Range<u32>) -> Seq<char> {
    "L"@ + spec_decimal((line_range.start + 1) as nat) + ":"@ + spec_decimal(
        (line_range.end + 1) as nat,
    )
}

/// The URI of a mention.
pub open spec fn spec_to_uri(mention: MentionUriView) -> Seq<char> {
    match mention {
        MentionUriView::File(path) => "file://"@ + path,
        MentionUriView::Symbol { path, name, line_range } => "file://"@ + path + "?symbol="@
            + name + "#"@ + spec_line_range_text(line_range),
        MentionUriView::Selection { path, line_range } => "file://"@ + path + "#"@
            + spec_line_range_text(line_range),
        MentionUriView::Thread(thread) => "zed:///agent/thread/"@ + thread,
        MentionUriView::TextThread(path) => "zed:///agent/text-thread/"@ + path,
        MentionUriView::Rule(rule) => "zed:///agent/rule/"@ + rule,
    }
}

/// The name under which a selection of lines is shown: the file's name, then the first
/// and last line in brackets, both counted from 1.
pub open spec fn spec_selection_name(path: Seq<char>, line_range: Range<u32>) -> Seq<char> {
    spec_file_name(path) + " ("@ + spec_decimal((line_range.start + 1) as nat) + ":"@
        + spec_decimal((line_range.end + 1) as nat) + ")"@
}

/// The name under which a mention is shown.
pub open spec fn spec_name(mention: MentionUriView) -> Seq<char> {
    match mention {
        MentionUriView::File(path) => spec_file_name(path),
        MentionUriView::Symbol { name, .. } => name,
        MentionUriView::Thread(thread) => thread,
        MentionUriView::TextThread(path) => path,
        MentionUriView::Rule(rule) => rule,
        MentionUriView::Selection { path, line_range } => spec_selection_name(path, line_range),
    }
}

/// The Markdown link of a mention: its name in square brackets, its URI in round ones.
pub open spec fn spec_to_link(mention: MentionUriView) -> Seq<char> {
    "["@ + spec_name(mention) + "]("@ + spec_to_uri(mention) + ")"@
}

/// Reads the number of a line, counted from 1, and gives it counted from 0.
fn parse_line(s: &str, invalid: MentionUriError) -> (line: Result<u32, MentionUriError>)
    ensures
        line == spec_line(s@, invalid),
{
    match parse_u32(s) {
        Some(n) => {
            if n == 0 {
                Err(MentionUriError::LineNumberZero)
            } else {
                Ok(n - 1)
            }
        },
        None => Err(invalid),
    }
}

/// Reads a line range from the fragment of a URI.
pub fn parse_line_range(fragment: &str) -> (line_range: Result<Range<u32>, MentionUriError>)
    ensures
        line_range == spec_line_range(fragment@),
{
    proof {
        reveal_strlit("L");
        assert("L"@ =~= seq!['L']);
    }
    let range = match strip_prefix(fragment, "L") {
        Some(range) => range,
        None => {
            return Err(MentionUriError::MissingLinePrefix);
        },
    };
    let range = range.as_str();
    let len = range.unicode_len();
    let colon = find_char(range, ':');
    if colon >= len {
        return Err(MentionUriError::MissingLineSeparator);
    }
    let start = match parse_line(
        range.substring_char(0, colon),
        MentionUriError::InvalidLineStart,
    ) {
        Ok(start) => start,
        Err(error) => {
            return Err(error);
        },
    };
    let end = match parse_line(
        range.substring_char(colon + 1, len),
        MentionUriError::InvalidLineEnd,
    ) {
        Ok(end) => end,
        Err(error) => {
            return Err(error);
        },
    };
    Ok(Range { start, end })
}

/// Appends a line range, written out, to `out`.
fn append_line_range(out: &mut String, line_range: &Range<u32>)
    ensures
        final(out)@ == old(out)@ + spec_line_range_text(*line_range),
{
    out.append("L");
    out.append(decimal_string(line_range.start as u64 + 1).as_str());
    out.append(":");
    out.append(decimal_string(line_range.end as u64 + 1).as_str());
    assert(out@ =~= old(out)@ + spec_line_range_text(*line_range));
}

impl MentionUri {
    /// The mention that the parts of a URL stand for, `pairs` being the pairs of names
    /// and values of its query.
    pub fn from_url_parts(
        scheme: &str,
        path: &str,
        fragment: Option<&str>,
        pairs: &Vec<(String, String)>,
    ) -> (result: Result<MentionUri, MentionUriError>)
        ensures
            spec_result_view(result) == spec_mention(
                scheme@,
                path@,
                match fragment {
                    Some(fragment) => Some(fragment@),
                    None => None,
                },
                spec_pair_views(pairs@),
            ),
    {
        if str_eq(scheme, "file") {
            match fragment {
                Some(fragment) => {
                    let line_range = match parse_line_range(fragment) {
                        Ok(line_range) => line_range,
                        Err(error) => {
                            return Err(error);
                        },
                    };
                    if pairs.len() == 0 {
                        Ok(MentionUri::Selection { path: String::from_str(path), line_range })
                    } else if pairs.len() == 1 {
                        if str_eq(pairs[0].0.as_str(), "symbol") {
                            Ok(
                                MentionUri::Symbol {
                                    name: pairs[0].1.clone(),
                                    path: String::from_str(path),
                                    line_range,
                                },
                            )
                        } else {
                            Err(MentionUriError::InvalidQueryParameter)
                        }
                    } else {
                        Err(MentionUriError::TooManyQueryPairs)
                    }
                },
                None => Ok(MentionUri::File(String::from_str(path))),
            }
        } else if str_eq(scheme, "zed") {
            match strip_prefix(path, "/agent/thread/") {
                Some(thread) => Ok(MentionUri::Thread(thread)),
                None => match strip_prefix(path, "/agent/rule/") {
                    Some(rule) => Ok(MentionUri::Rule(rule)),
                    None => Err(MentionUriError::InvalidZedUrl),
                },
            }
        } else {
            Err(MentionUriError::UnrecognizedScheme)
        }
    }

    /// Reads a mention from its URI. The string is parsed as a URL; what the URL's
    /// parts stand for is then decided as `from_url_parts` says.
    pub fn parse(input: &str) -> (result: Result<MentionUri, MentionUriError>)
        ensures
            match spec_parse_url(input@) {
                None => result == Err::<MentionUri, MentionUriError>(MentionUriError::InvalidUrl),
                Some((scheme, path, fragment, query)) => spec_result_view(result) == spec_mention(
                    scheme,
                    path,
                    fragment,
                    spec_query_pairs(
                        match query {
                            Some(query) => query,
                            None => ""@,
                        },
                    ),
                ),
            },
    {
        let parsed = match parse_url(input) {
            Some(parsed) => parsed,
            None => {
                return Err(MentionUriError::InvalidUrl);
            },
        };
        let pairs = match &parsed.query {
            Some(query) => query_pairs(query.as_str()),
            None => query_pairs(""),
        };
        let fragment: Option<&str> = match &parsed.fragment {
            Some(fragment) => Some(fragment.as_str()),
            None => None,
        };
        MentionUri::from_url_parts(parsed.scheme.as_str(), parsed.path.as_str(), fragment, &pairs)
    }

    /// The name under which the mention is shown.
    pub fn name(&self) -> (name: String)
        ensures
            name@ == spec_name(self@),
    {
        match self {
            MentionUri::File(path) => file_name(path.as_str()),
            MentionUri::Symbol { name, .. } => name.clone(),
            MentionUri::Thread(thread) => thread.clone(),
            MentionUri::TextThread(thread) => thread.clone(),
            MentionUri::Rule(rule) => rule.clone(),
            MentionUri::Selection { path, line_range } => selection_name(
                path.as_str(),
                line_range,
            ),
        }
    }

    /// The Markdown link of the mention.
    pub fn to_link(&self) -> (link: String)
        ensures
            link@ == spec_to_link(self@),
    {
        let name = self.name();
        let uri = self.to_uri();
        let mut link = String::from_str("[");
        link.append(name.as_str());
        link.append("](");
        link.append(uri.as_str());
        link.append(")");
        link
    }

    /// The URI of the mention.
    pub fn to_uri(&self) -> (uri: String)
        ensures
            uri@ == spec_to_uri(self@),
    {
        match self {
            MentionUri::File(path) => {
                let mut uri = String::from_str("file://");
                uri.append(path.as_str());
                uri
            },
            MentionUri::Symbol { path, name, line_range } => {
                let mut uri = String::from_str("file://");
                uri.append(path.as_str());
                uri.append("?symbol=");
                uri.append(name.as_str());
                uri.append("#");
                append_line_range(&mut uri, line_range);
                uri
            },
            MentionUri::Selection { path, line_range } => {
                let mut uri = String::from_str("file://");
                uri.append(path.as_str());
                uri.append("#");
                append_line_range(&mut uri, line_range);
                uri
            },
            MentionUri::Thread(thread) => {
                let mut uri = String::from_str("zed:///agent/thread/");
                uri.append(thread.as_str());
                uri
            },
            MentionUri::TextThread(path) => {
                let mut uri = String::from_str("zed:///agent/text-thread/");
                uri.append(path.as_str());
                uri
            },
            MentionUri::Rule(rule) => {
                let mut uri = String::from_str("zed:///agent/rule/");
                uri.append(rule.as_str());
                uri
            },
        }
    }
}

/// The name under which a selection of lines of the file at `path` is shown.
pub fn selection_name(path: &str, line_range: &Range<u32>) -> (name: String)
    ensures
        name@ == spec_selection_name(path@, *line_range),
{
    let mut name = file_name(path);
    name.append(" (");
    name.append(decimal_string(line_range.start as u64 + 1).as_str());
    name.append(":");
    name.append(decimal_string(line_range.end as u64 + 1).as_str());
    name.append(")");
    name
}

} // verus!
