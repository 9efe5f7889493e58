use vstd::prelude::*;

verus! {

/// Errors that occur when reading or writing a sitemap document.
///
/// Every failure of the reader is reported as one of these values; none of
/// them aborts the process.
#[derive(Debug, Clone, Copy, PartialEq, Eq, Structural)]
pub enum Error {
    /// The document is not well-formed XML.
    XmlSyntaxError,
    /// The byte source or sink failed.
    IoError,
    /// A `<priority>` value is not a decimal number.
    ParsePriorityError,
    /// The declared encoding is missing or is not UTF-8.
    EncodingError,
    /// A `<loc>` value is not an absolute URL.
    UrlParseError,
    /// More than 50,000 entries in one document.
    TooManyUrls,
    /// A `<loc>` value is longer than 2048 characters.
    UrlValueTooLong,
    /// A priority below 0.0.
    PriorityTooLow,
    /// A priority above 1.0.
    PriorityTooHigh,
    /// A `<changefreq>` value is not one of the seven tokens.
    UnrecognizedChangeFreq,
    /// A `<lastmod>` value is neither a date nor an offset date-time.
    DateTimeParseError,
    /// The input ended before the document was complete.
    UnexpectedEof,
    /// The root element is neither `<urlset>` nor `<sitemapindex>`.
    NotASitemap,
}

} // verus!
