//! Fills the templates of the files that go with a generated program.

use vstd::prelude::*;

verus! {

/// Whether `pattern` stands at the start of `text`.
pub open spec fn starts_with(text: Seq<char>, pattern: Seq<char>) -> bool {
    pattern.len() <= text.len() && text.take(pattern.len() as int) == pattern
}

/// `text` with every match of `pattern` replaced by `to`: the matches are
/// taken from the left and do not overlap.
pub open spec fn replace_all(text: Seq<char>, pattern: Seq<char>, to: Seq<char>) -> Seq<char>
    decreases text.len(),
{
    if pattern.len() == 0 || text.len() == 0 {
        text
    } else if starts_with(text, pattern) {
        to + replace_all(text.skip(pattern.len() as int), pattern, to)
    } else {
        seq![text[0]] + replace_all(text.skip(1), pattern, to)
    }
}

/// `str::replace` with a pattern that is not empty: a new text in which every
/// match of the pattern, found from the left and apart from the one before,
/// stands replaced.
#[verifier::external_body]
fn replace(text: &str, pattern: &str, to: &str) -> (replaced: String)
    requires
        pattern@.len() > 0,
    ensures
        replaced@ == replace_all(text@, pattern@, to@),
{
    text.replace(pattern, to)
}

/// The values that the placeholders of a template stand for.
#[derive(Debug, Clone, Copy)]
pub struct Replacements<'a> {
    pub package_name: &'a str,
    pub source_filename: &'a str,
    pub source_code: &'a str,
    pub timestamp: &'a str,
}

/// A template with its four placeholders filled, one after the other: the
/// package name, the name of the source file, the source code, the time.
pub open spec fn filled(
    orig: Seq<char>,
    package_name: Seq<char>,
    source_filename: Seq<char>,
    source_code: Seq<char>,
    timestamp: Seq<char>,
) -> Seq<char> {
    replace_all(
        replace_all(
            replace_all(
                replace_all(orig, "%%PACKAGE_NAME%%"@, package_name),
                "%%SOURCE_FILENAME%%"@,
                source_filename,
            ),
            "%%SOURCE_CODE%%"@,
            source_code,
        ),
        "%%TIMESTAMP%%"@,
        timestamp,
    )
}

impl<'a> Replacements<'a> {
    /// Fills the placeholders of a template.
    pub fn run(&self, orig: &str) -> (result: String)
        ensures
            result@ == filled(
                orig@,
                self.package_name@,
                self.source_filename@,
                self.source_code@,
                self.timestamp@,
            ),
    {
        proof {
            reveal_strlit("%%PACKAGE_NAME%%");
            reveal_strlit("%%SOURCE_FILENAME%%");
            reveal_strlit("%%SOURCE_CODE%%");
            reveal_strlit("%%TIMESTAMP%%");
        }
        let named = replace(orig, "%%PACKAGE_NAME%%", self.package_name);
        let with_file = replace(named.as_str(), "%%SOURCE_FILENAME%%", self.source_filename);
        let with_code = replace(with_file.as_str(), "%%SOURCE_CODE%%", self.source_code);
        replace(with_code.as_str(), "%%TIMESTAMP%%", self.timestamp)
    }
}

} // verus!
