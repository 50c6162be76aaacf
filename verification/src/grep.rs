//! Searching every archive member for a byte pattern. The regular
//! expression engine is outside code: the compiled program is kept
//! beside its source text, and what a match means is named, not
//! restated.
use vstd::prelude::*;

use crate::pak::{content_of, file_count_of, read_spec, PakReader};
use crate::Error;

verus! {

#[verifier::external_type_specification]
#[verifier::external_body]
pub struct ExRegex(regex::bytes::Regex);

/// Whether the pattern text is a well-formed regular expression.
pub uninterp spec fn regex_valid(pattern: Seq<char>) -> bool;

/// Whether the pattern matches somewhere in the haystack: a function
/// of the pattern text and the bytes alone.
pub uninterp spec fn regex_match_of(pattern: Seq<char>, data: Seq<u8>) -> bool;

/// A compiled pattern, kept beside the text it was compiled from.
/// Only `Pattern::new` builds one, so the program always belongs to
/// the text.
struct Pattern {
    text: String,
    re: regex::bytes::Regex,
}

impl Pattern {
    closed spec fn text_view(&self) -> Seq<char> {
        self.text@
    }

    /// Relies on regex's `bytes::Regex::new`: compiling succeeds or
    /// fails on the pattern text alone; the byte-oriented engine is
    /// built without Unicode defaults, like the scanner it serves.
    #[verifier::external_body]
    fn new(pattern: &str) -> (r: Result<Pattern, Error>)
        ensures
            r matches Ok(p) ==> p.text_view() == pattern@ && regex_valid(pattern@),
            r matches Err(e) ==> e == Error::BadPattern && !regex_valid(pattern@),
    {
        match regex::bytes::RegexBuilder::new(pattern).unicode(false).build() {
            Ok(re) => Ok(Pattern { text: pattern.to_owned(), re }),
            Err(_) => Err(Error::BadPattern),
        }
    }

    /// Relies on regex's `bytes::Regex::is_match`: whether the pattern
    /// matches is a function of pattern text and haystack bytes.
    #[verifier::external_body]
    fn is_match(&self, data: &[u8]) -> (r: bool)
        ensures
            r == regex_match_of(self.text_view(), data@),
    {
        self.re.is_match(data)
    }
}

/// Every matching member index appears in the result.
pub open spec fn grep_complete(s: Seq<u8>, text: Seq<char>, v: Seq<u32>) -> bool {
    forall|i: int|
        0 <= i < file_count_of(s) && regex_match_of(text, content_of(s, i)) ==> exists|k: int|
            0 <= k < v.len() && v[k] == i
}

/// The indices of all members the pattern matches, in ascending order.
/// A pattern that does not compile is rejected; the first unreadable
/// member aborts the search.
pub fn grep(pak: &PakReader, pattern: &str) -> (r: Result<Vec<u32>, Error>)
    requires
        pak.wf(),
    ensures
        r matches Ok(v) ==> regex_valid(pattern@),
        r matches Ok(v) ==> forall|i: int|
            0 <= i < file_count_of(pak@) ==> read_spec(pak@, i) is Some,
        r matches Ok(v) ==> forall|k1: int, k2: int|
            0 <= k1 < k2 < v@.len() ==> v@[k1] < v@[k2],
        r matches Ok(v) ==> forall|k: int|
            0 <= k < v@.len() ==> (#[trigger] v@[k]) < file_count_of(pak@),
        r matches Ok(v) ==> forall|k: int|
            0 <= k < v@.len() ==> regex_match_of(
                pattern@,
                content_of(pak@, (#[trigger] v@[k]) as int),
            ),
        r matches Ok(v) ==> grep_complete(pak@, pattern@, v@),
        r matches Err(e) ==> match e {
            Error::BadPattern => !regex_valid(pattern@),
            Error::CorruptData => regex_valid(pattern@) && exists|i: int|
                0 <= i < file_count_of(pak@) && read_spec(pak@, i) is None,
            _ => false,
        },
{
    let compiled = match Pattern::new(pattern) {
        Ok(p) => p,
        Err(e) => {
            return Err(e);
        },
    };
    let count = pak.get_file_count();
    let mut found: Vec<u32> = Vec::new();
    let mut i: u32 = 0;
    while i < count
        invariant
            pak.wf(),
            count == file_count_of(pak@),
            i <= count,
            forall|j: int| 0 <= j < i ==> read_spec(pak@, j) is Some,
            forall|k1: int, k2: int| 0 <= k1 < k2 < found@.len() ==> found@[k1] < found@[k2],
            forall|k: int| 0 <= k < found@.len() ==> (#[trigger] found@[k]) < i,
            forall|k: int|
                0 <= k < found@.len() ==> regex_match_of(
                    compiled.text_view(),
                    content_of(pak@, #[trigger] found@[k] as int),
                ),
            forall|j: int|
                0 <= j < i && regex_match_of(compiled.text_view(), content_of(pak@, j)) ==> exists|
                    k: int,
                |
                    0 <= k < found@.len() && found@[k] == j,
        decreases count - i,
    {
        let content = match pak.read_file_at(i) {
            Ok(c) => c,
            Err(_) => {
                return Err(Error::CorruptData);
            },
        };
        assert(content@ == content_of(pak@, i as int));
        let ghost pre = found@;
        if compiled.is_match(content.as_slice()) {
            found.push(i);
            proof {
                assert(found@.last() == i);
                assert(forall|k: int| 0 <= k < pre.len() ==> found@[k] == #[trigger] pre[k]);
            }
        }
        i = i + 1;
    }
    proof {
        assert(grep_complete(pak@, pattern@, found@));
    }
    Ok(found)
}

} // verus!
