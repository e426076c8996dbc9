//! Why a feed, an entry or a field could not be read.
use crate::text::{decimal, i64_to_string, u64_to_string};
use vstd::prelude::*;
use vstd::string::*;

verus! {

/// The reasons for which scraping reports a failure.
#[derive(Debug, PartialEq, Eq)]
pub enum ScrapeError {
    /// A page of reviews could not be fetched.
    FetchReviews { app_id: String, page: u64 },
    /// The top applications of a category could not be fetched.
    FetchApps { category: i64 },
    /// A document is not XML.
    ParseXml,
    /// An entry could not be written out as XML.
    WriteXml,
    /// An entry was not written out as UTF-8.
    Utf8,
    /// A node has no child of this name.
    MissingNode { name: String },
    /// A node has no child of this name whose attribute has this value.
    MissingNodeWithAttr { name: String, attr: String, value: String },
    /// A review has no plain-text content.
    MissingContent,
    /// A node lacks an attribute.
    MissingAttr,
    /// A node holds no text.
    NoText { name: String },
    /// A text is not an RFC 3339 date.
    BadDate,
    /// A rating is not an integer.
    BadRating,
}

/// A `ScrapeError` with its strings as character sequences.
pub enum ErrorView {
    FetchReviews { app_id: Seq<char>, page: int },
    FetchApps { category: int },
    ParseXml,
    WriteXml,
    Utf8,
    MissingNode { name: Seq<char> },
    MissingNodeWithAttr { name: Seq<char>, attr: Seq<char>, value: Seq<char> },
    MissingContent,
    MissingAttr,
    NoText { name: Seq<char> },
    BadDate,
    BadRating,
}

impl View for ScrapeError {
    type V = ErrorView;

    open spec fn view(&self) -> ErrorView {
        match self {
            ScrapeError::FetchReviews { app_id, page } => ErrorView::FetchReviews {
                app_id: app_id@,
                page: *page as int,
            },
            ScrapeError::FetchApps { category } => ErrorView::FetchApps {
                category: *category as int,
            },
            ScrapeError::ParseXml => ErrorView::ParseXml,
            ScrapeError::WriteXml => ErrorView::WriteXml,
            ScrapeError::Utf8 => ErrorView::Utf8,
            ScrapeError::MissingNode { name } => ErrorView::MissingNode { name: name@ },
            ScrapeError::MissingNodeWithAttr { name, attr, value } => {
                ErrorView::MissingNodeWithAttr { name: name@, attr: attr@, value: value@ }
            },
            ScrapeError::MissingContent => ErrorView::MissingContent,
            ScrapeError::MissingAttr => ErrorView::MissingAttr,
            ScrapeError::NoText { name } => ErrorView::NoText { name: name@ },
            ScrapeError::BadDate => ErrorView::BadDate,
            ScrapeError::BadRating => ErrorView::BadRating,
        }
    }
}

/// A result with its value and its error taken by their views.
pub open spec fn result_view<T: View>(r: Result<T, ScrapeError>) -> Result<T::V, ErrorView> {
    match r {
        Ok(value) => Ok(value@),
        Err(error) => Err(error@),
    }
}

impl ErrorView {
    /// The line to log for an error; a missing attribute is not logged.
    pub open spec fn log_line(self) -> Option<Seq<char>> {
        match self {
            ErrorView::FetchReviews { app_id, page } => Some(
                "Unable to fetch reviews for app_id "@ + app_id + " and page "@ + decimal(page),
            ),
            ErrorView::FetchApps { category } => Some(
                "Unable to fetch apps for category "@ + decimal(category),
            ),
            ErrorView::ParseXml => Some("Couldn't parse XML from document"@),
            ErrorView::WriteXml => Some("Couldn't write XML to cursor"@),
            ErrorView::Utf8 => Some("Couldn't parse UTF8 string"@),
            ErrorView::MissingNode { name } => Some("Unable to find node with name "@ + name),
            ErrorView::MissingNodeWithAttr { name, attr, value } => Some(
                "Unable to find node with name "@ + name + " and "@ + attr + "="@ + value,
            ),
            ErrorView::MissingContent => Some("No contet[type=\"text\"] element found"@),
            ErrorView::MissingAttr => None,
            ErrorView::NoText { name } => Some("No text found in "@ + name + " node"@),
            ErrorView::BadDate => Some("Couldn't parse date from string"@),
            ErrorView::BadRating => Some("Unable to parse rating as int"@),
        }
    }
}

impl ScrapeError {
    /// The line to log for this error; a missing attribute is not logged.
    pub fn log_line(&self) -> (r: Option<String>)
        ensures
            match r {
                Some(line) => self@.log_line() == Some(line@),
                None => self@.log_line() is None,
            },
    {
        let mut line = String::new();
        match self {
            ScrapeError::FetchReviews { app_id, page } => {
                line.append("Unable to fetch reviews for app_id ");
                line.append(app_id.as_str());
                line.append(" and page ");
                line.append(u64_to_string(*page).as_str());
            },
            ScrapeError::FetchApps { category } => {
                line.append("Unable to fetch apps for category ");
                line.append(i64_to_string(*category).as_str());
            },
            ScrapeError::ParseXml => line.append("Couldn't parse XML from document"),
            ScrapeError::WriteXml => line.append("Couldn't write XML to cursor"),
            ScrapeError::Utf8 => line.append("Couldn't parse UTF8 string"),
            ScrapeError::MissingNode { name } => {
                line.append("Unable to find node with name ");
                line.append(name.as_str());
            },
            ScrapeError::MissingNodeWithAttr { name, attr, value } => {
                line.append("Unable to find node with name ");
                line.append(name.as_str());
                line.append(" and ");
                line.append(attr.as_str());
                line.append("=");
                line.append(value.as_str());
            },
            ScrapeError::MissingContent => line.append("No contet[type=\"text\"] element found"),
            ScrapeError::MissingAttr => return None,
            ScrapeError::NoText { name } => {
                line.append("No text found in ");
                line.append(name.as_str());
                line.append(" node");
            },
            ScrapeError::BadDate => line.append("Couldn't parse date from string"),
            ScrapeError::BadRating => line.append("Unable to parse rating as int"),
        }
        assert(self@.log_line() matches Some(text) && line@ =~= text);
        Some(line)
    }
}

/// Keeps the value of a result, or puts an error of this library in the place of another.
pub fn erase_err<T, E>(result: Result<T, E>, error: ScrapeError) -> (r: Result<T, ScrapeError>)
    ensures
        r == match result {
            Ok(value) => Ok(value),
            Err(_) => Err(error),
        },
{
    match result {
        Ok(value) => Ok(value),
        Err(_) => Err(error),
    }
}

/// Keeps the value of an option, or fails with an error where there is none.
pub fn empty_to_err<T>(option: Option<T>, error: ScrapeError) -> (r: Result<T, ScrapeError>)
    ensures
        r == match option {
            Some(value) => Ok(value),
            None => Err(error),
        },
{
    match option {
        Some(value) => Ok(value),
        None => Err(error),
    }
}

/// An error is seen as the one that it is, with what it names.
pub proof fn the_view_of_an_error_is_its_kind_and_fields(error: ScrapeError)
    ensures
        error is FetchReviews <==> error@ is FetchReviews,
        error is FetchApps <==> error@ is FetchApps,
        error is ParseXml <==> error@ is ParseXml,
        error is WriteXml <==> error@ is WriteXml,
        error is Utf8 <==> error@ is Utf8,
        error is MissingNode <==> error@ is MissingNode,
        error is MissingNodeWithAttr <==> error@ is MissingNodeWithAttr,
        error is MissingContent <==> error@ is MissingContent,
        error is MissingAttr <==> error@ is MissingAttr,
        error is NoText <==> error@ is NoText,
        error is BadDate <==> error@ is BadDate,
        error is BadRating <==> error@ is BadRating,
        error matches ScrapeError::FetchReviews { app_id, page } ==> error@ == (
        ErrorView::FetchReviews { app_id: app_id@, page: page as int }),
        error matches ScrapeError::FetchApps { category } ==> error@ == (ErrorView::FetchApps {
            category: category as int,
        }),
        error matches ScrapeError::MissingNode { name } ==> error@ == (ErrorView::MissingNode {
            name: name@,
        }),
        error matches ScrapeError::MissingNodeWithAttr { name, attr, value } ==> error@ == (
        ErrorView::MissingNodeWithAttr { name: name@, attr: attr@, value: value@ }),
        error matches ScrapeError::NoText { name } ==> error@ == (ErrorView::NoText { name: name@ }),
{
}

/// The view of a result is on the side of the result, and is that of its value or of its error.
pub proof fn the_view_of_a_result_is_on_its_side<T: View>(result: Result<T, ScrapeError>)
    ensures
        result matches Ok(value) ==> result_view(result) == Ok::<T::V, ErrorView>(value@),
        result matches Err(error) ==> result_view(result) == Err::<T::V, ErrorView>(error@),
{
}

/// Every error but a missing attribute has a line to log. What an error names stands in its line, to
/// the character, and nothing else changes with it.
pub proof fn a_line_names_what_the_error_names(
    error: ErrorView,
    app_id: Seq<char>,
    page: int,
    category: int,
    name: Seq<char>,
    attr: Seq<char>,
    value: Seq<char>,
)
    ensures
        error.log_line() is None <==> error is MissingAttr,
        (ErrorView::FetchReviews { app_id, page }).log_line() == Some(
            "Unable to fetch reviews for app_id "@ + app_id + " and page "@ + decimal(page),
        ),
        (ErrorView::FetchApps { category }).log_line() == Some(
            "Unable to fetch apps for category "@ + decimal(category),
        ),
        (ErrorView::MissingNode { name }).log_line() == Some(
            "Unable to find node with name "@ + name,
        ),
        (ErrorView::MissingNodeWithAttr { name, attr, value }).log_line() == Some(
            "Unable to find node with name "@ + name + " and "@ + attr + "="@ + value,
        ),
        (ErrorView::NoText { name }).log_line() == Some("No text found in "@ + name + " node"@),
        ErrorView::ParseXml.log_line() == Some("Couldn't parse XML from document"@),
        ErrorView::WriteXml.log_line() == Some("Couldn't write XML to cursor"@),
        ErrorView::Utf8.log_line() == Some("Couldn't parse UTF8 string"@),
        ErrorView::MissingContent.log_line() == Some("No contet[type=\"text\"] element found"@),
        ErrorView::BadDate.log_line() == Some("Couldn't parse date from string"@),
        ErrorView::BadRating.log_line() == Some("Unable to parse rating as int"@),
{
}

/// Errors of a missing node differ in their lines where they differ in the name, and so do those of
/// a node without text.
pub proof fn lines_tell_names_apart(name: Seq<char>, other: Seq<char>)
    ensures
        (ErrorView::MissingNode { name }).log_line() == (ErrorView::MissingNode {
            name: other,
        }).log_line() <==> name == other,
        (ErrorView::NoText { name }).log_line() == (ErrorView::NoText { name: other }).log_line()
            <==> name == other,
{
    let start = "Unable to find node with name "@;
    let before = "No text found in "@;
    let behind = " node"@;
    if start + name == start + other {
        assert((start + name).skip(start.len() as int) =~= name);
        assert((start + other).skip(start.len() as int) =~= other);
    }
    let line = before + name + behind;
    let other_line = before + other + behind;
    if line == other_line {
        assert(line.subrange(before.len() as int, line.len() - behind.len()) =~= name);
        assert(other_line.subrange(before.len() as int, other_line.len() - behind.len()) =~= other);
    }
}

} // verus!
