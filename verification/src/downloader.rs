//! Finding the image to download for a template, and the retries of a download.
use vstd::prelude::*;
use crate::catalog::Template;
use crate::options::texts;
use crate::text::{chars_of, decimal, decimal_chars, is_digit, string_from_chars};

verus! {

#[verifier::external_type_specification]
#[verifier::external_body]
pub struct ExRegex(regex::Regex);

#[verifier::external_type_specification]
#[verifier::external_body]
pub struct ExRegexError(regex::Error);

/// The characters that have a meaning in a regular expression (regex's
/// `is_meta_character`).
pub open spec fn is_regex_meta(c: char) -> bool {
    c == '\\' || c == '.' || c == '+' || c == '*' || c == '?' || c == '(' || c == ')' || c == '|'
        || c == '[' || c == ']' || c == '{' || c == '}' || c == '^' || c == '$' || c == '#' || c
        == '&' || c == '-' || c == '~'
}

/// `s` with a backslash before each regex meta character (what `regex::escape` returns).
pub open spec fn regex_escaped(s: Seq<char>) -> Seq<char>
    decreases s.len(),
{
    if s.len() == 0 {
        Seq::empty()
    } else {
        regex_escaped(s.drop_last()) + if is_regex_meta(s.last()) {
            seq!['\\', s.last()]
        } else {
            seq![s.last()]
        }
    }
}

/// Whether `c` has a meaning in a regular expression.
fn is_meta_char(c: char) -> (r: bool)
    ensures
        r == is_regex_meta(c),
{
    c == '\\' || c == '.' || c == '+' || c == '*' || c == '?' || c == '(' || c == ')' || c == '|'
        || c == '[' || c == ']' || c == '{' || c == '}' || c == '^' || c == '$' || c == '#' || c
        == '&' || c == '-' || c == '~'
}

/// `text` with a backslash before each regex meta character, so that a regex
/// matches it literally.
pub fn escape_regex(text: &str) -> (escaped: String)
    ensures
        escaped@ == regex_escaped(text@),
{
    let chars = chars_of(text);
    let mut out: Vec<char> = Vec::new();
    let mut i: usize = 0;
    while i < chars.len()
        invariant
            chars@ == text@,
            i <= chars@.len(),
            out@ == regex_escaped(chars@.take(i as int)),
        decreases chars@.len() - i,
    {
        assert(chars@.take(i + 1).drop_last() =~= chars@.take(i as int));
        assert(chars@.take(i + 1).last() == chars@[i as int]);
        let c = chars[i];
        if is_meta_char(c) {
            out.push('\\');
        }
        out.push(c);
        i = i + 1;
    }
    assert(chars@.take(i as int) =~= chars@);
    string_from_chars(out.as_slice())
}

/// Whether `regex::Regex::new` accepts the pattern (its syntax is valid and
/// the compiled form stays within the default size limit).
pub uninterp spec fn regex_compiles(pattern: Seq<char>) -> bool;

/// `regex::Regex::new`: it succeeds exactly on the patterns it accepts; which
/// those are is a property of the pattern alone.
#[verifier::external_body]
fn compile_regex(pattern: &str) -> (r: Result<regex::Regex, regex::Error>)
    ensures
        r is Ok <==> regex_compiles(pattern@),
{
    regex::Regex::new(pattern)
}

/// The text of a regex error (its `Display`); nothing is stated of it.
#[verifier::external_body]
fn regex_error_text(error: &regex::Error) -> String {
    error.to_string()
}

/// A compiled regular expression together with the pattern it was compiled from.
pub struct ListingPattern {
    regex: regex::Regex,
    source: String,
}

impl View for ListingPattern {
    type V = Seq<char>;

    closed spec fn view(&self) -> Seq<char> {
        self.source@
    }
}

impl ListingPattern {
    /// Compiles `source`; the pattern is kept with it.
    pub fn compile(source: String) -> (r: Result<ListingPattern, String>)
        ensures
            r is Ok <==> regex_compiles(source@),
            r matches Ok(p) ==> p@ == source@,
    {
        match compile_regex(source.as_str()) {
            Ok(regex) => Ok(ListingPattern { regex: regex, source: source }),
            Err(e) => Err(regex_error_text(&e)),
        }
    }
}

/// Capture group 1 of each successive non-overlapping match of the pattern in
/// the haystack, `None` where that group took no part in the match
/// (`Regex::captures_iter` with `Captures::get(1)`).
pub uninterp spec fn regex_first_groups(pattern: Seq<char>, haystack: Seq<char>) -> Seq<Option<Seq<char>>>;

/// The optional texts as values.
pub open spec fn optional_texts(v: Seq<Option<String>>) -> Seq<Option<Seq<char>>> {
    v.map_values(|o: Option<String>| match o {
        Some(s) => Some(s@),
        None => None,
    })
}

/// The texts that are present, in order.
pub open spec fn present(v: Seq<Option<Seq<char>>>) -> Seq<Seq<char>>
    decreases v.len(),
{
    if v.len() == 0 {
        Seq::empty()
    } else {
        let rest = present(v.drop_last());
        match v.last() {
            Some(t) => rest.push(t),
            None => rest,
        }
    }
}

/// The texts that are present, in order.
pub fn present_texts(v: Vec<Option<String>>) -> (out: Vec<String>)
    ensures
        texts(out@) == present(optional_texts(v@)),
{
    let ghost ov = optional_texts(v@);
    let mut out: Vec<String> = Vec::new();
    let mut i: usize = 0;
    while i < v.len()
        invariant
            i <= v@.len(),
            ov == optional_texts(v@),
            texts(out@) == present(ov.take(i as int)),
        decreases v@.len() - i,
    {
        assert(ov.take(i + 1).drop_last() =~= ov.take(i as int));
        assert(ov.take(i + 1).last() == ov[i as int]);
        match &v[i] {
            Some(t) => {
                let ghost before = out@;
                out.push(t.clone());
                assert(texts(out@) =~= texts(before).push(t@));
            },
            None => {},
        }
        i = i + 1;
    }
    assert(ov.take(i as int) =~= ov);
    out
}

/// `regex::Regex::captures_iter`, giving for each match the text of capture
/// group 1, or `None` where that group took no part. The result depends on the pattern and the haystack
/// alone: a [`ListingPattern`] is only ever built by compiling its own source.
#[verifier::external_body]
fn first_groups(pattern: &ListingPattern, haystack: &str) -> (groups: Vec<Option<String>>)
    ensures
        optional_texts(groups@) == regex_first_groups(pattern@, haystack@),
{
    pattern.regex.captures_iter(haystack).map(|c| c.get(1).map(|m| m.as_str().to_string())).collect()
}

/// The regex that finds, in a directory listing, the links to the images whose
/// names begin with `artifact`: `href="(ARTIFACT[^"]+\.qcow2)"`, with the
/// artifact escaped.
pub open spec fn image_link_pattern(artifact: Seq<char>) -> Seq<char> {
    "href=\"("@ + regex_escaped(artifact) + "[^\"]+\\.qcow2)\""@
}

/// `a` sorts before `b` (the order of `String`s: character by character, by
/// code point, a proper prefix first).
pub open spec fn text_lt(a: Seq<char>, b: Seq<char>) -> bool
    decreases a.len(),
{
    if a.len() == 0 {
        b.len() > 0
    } else if b.len() == 0 {
        false
    } else if a[0] != b[0] {
        a[0] < b[0]
    } else {
        text_lt(a.drop_first(), b.drop_first())
    }
}

pub proof fn lemma_text_lt_irreflexive(a: Seq<char>)
    ensures
        !text_lt(a, a),
    decreases a.len(),
{
    if a.len() > 0 {
        lemma_text_lt_irreflexive(a.drop_first());
    }
}

pub proof fn lemma_text_lt_transitive(a: Seq<char>, b: Seq<char>, c: Seq<char>)
    requires
        text_lt(a, b),
        text_lt(b, c),
    ensures
        text_lt(a, c),
    decreases a.len(),
{
    if a.len() > 0 && b.len() > 0 && c.len() > 0 && a[0] == b[0] && b[0] == c[0] {
        lemma_text_lt_transitive(a.drop_first(), b.drop_first(), c.drop_first());
    }
}

pub proof fn lemma_text_lt_total(a: Seq<char>, b: Seq<char>)
    ensures
        a == b || text_lt(a, b) || text_lt(b, a),
    decreases a.len(),
{
    if a.len() > 0 && b.len() > 0 {
        if a[0] == b[0] {
            lemma_text_lt_total(a.drop_first(), b.drop_first());
            if a.drop_first() == b.drop_first() {
                assert(a =~= seq![a[0]] + a.drop_first());
                assert(b =~= seq![b[0]] + b.drop_first());
            }
        }
    } else if a.len() == 0 && b.len() == 0 {
        assert(a =~= b);
    }
}

/// Whether `a` sorts before `b`.
pub fn text_less(a: &[char], b: &[char]) -> (r: bool)
    ensures
        r == text_lt(a@, b@),
{
    let mut i: usize = 0;
    assert(a@.skip(0) =~= a@);
    assert(b@.skip(0) =~= b@);
    while i < a.len() && i < b.len() && a[i] == b[i]
        invariant
            i <= a@.len(),
            i <= b@.len(),
            text_lt(a@, b@) == text_lt(a@.skip(i as int), b@.skip(i as int)),
        decreases a@.len() - i,
    {
        assert(a@.skip(i as int).drop_first() =~= a@.skip(i + 1));
        assert(b@.skip(i as int).drop_first() =~= b@.skip(i + 1));
        i = i + 1;
    }
    if i == a.len() {
        i < b.len()
    } else if i == b.len() {
        false
    } else {
        a[i] < b[i]
    }
}

/// `best` is the newest (greatest) of `candidates`.
pub open spec fn is_newest(candidates: Seq<Seq<char>>, best: Seq<char>) -> bool {
    &&& candidates.contains(best)
    &&& forall|i: int| 0 <= i < candidates.len() ==> !text_lt(best, #[trigger] candidates[i])
}

/// The position of the first character of `s` from `i` on that is not `-`.
pub open spec fn skip_dashes(s: Seq<char>, i: int) -> int
    decreases s.len() - i,
{
    if 0 <= i < s.len() && s[i] == '-' {
        skip_dashes(s, i + 1)
    } else {
        i
    }
}

/// An image name whose part after the artifact (the first `artifact_len`
/// characters) starts, past any `-`, with a digit: the name carries a date or
/// a release number, where a link such as `…-latest.x86_64.qcow2` carries a word.
pub open spec fn is_dated(name: Seq<char>, artifact_len: int) -> bool {
    let k = skip_dashes(name, artifact_len);
    0 <= k < name.len() && is_digit(name[k])
}

/// The dated names among `names`, in order.
pub open spec fn dated(names: Seq<Seq<char>>, artifact_len: int) -> Seq<Seq<char>>
    decreases names.len(),
{
    if names.len() == 0 {
        Seq::empty()
    } else {
        let rest = dated(names.drop_last(), artifact_len);
        if is_dated(names.last(), artifact_len) {
            rest.push(names.last())
        } else {
            rest
        }
    }
}

/// Whether the image name `name` is dated after its first `artifact_len` characters.
pub fn is_dated_name(name: &[char], artifact_len: usize) -> (r: bool)
    ensures
        r == is_dated(name@, artifact_len as int),
{
    let mut k: usize = artifact_len;
    while k < name.len() && name[k] == '-'
        invariant
            artifact_len <= k,
            skip_dashes(name@, k as int) == skip_dashes(name@, artifact_len as int),
        decreases name@.len() - k,
    {
        k = k + 1;
    }
    k < name.len() && '0' <= name[k] && name[k] <= '9'
}

/// The dated names among `names`, in order.
pub fn dated_images(names: Vec<String>, artifact_len: usize) -> (out: Vec<String>)
    ensures
        texts(out@) == dated(texts(names@), artifact_len as int),
{
    let ghost nv = texts(names@);
    let mut out: Vec<String> = Vec::new();
    let mut i: usize = 0;
    while i < names.len()
        invariant
            i <= names@.len(),
            nv == texts(names@),
            texts(out@) == dated(nv.take(i as int), artifact_len as int),
        decreases names@.len() - i,
    {
        assert(nv.take(i + 1).drop_last() =~= nv.take(i as int));
        assert(nv.take(i + 1).last() == nv[i as int]);
        let chars = chars_of(names[i].as_str());
        if is_dated_name(chars.as_slice(), artifact_len) {
            let ghost before = out@;
            out.push(names[i].clone());
            assert(texts(out@) =~= texts(before).push(nv[i as int]));
        }
        i = i + 1;
    }
    assert(nv.take(i as int) =~= nv);
    out
}

/// The greatest of `candidates` in `String` order, which is the first after
/// sorting them and reversing the order; `None` when there are none.
pub fn newest_image(candidates: &[String]) -> (best: Option<String>)
    ensures
        match best {
            Some(b) => is_newest(texts(candidates@), b@),
            None => candidates@.len() == 0,
        },
{
    if candidates.len() == 0 {
        return None;
    }
    let ghost cv = texts(candidates@);
    let mut best_index: usize = 0;
    let mut best = chars_of(candidates[0].as_str());
    let mut i: usize = 1;
    proof {
        lemma_text_lt_irreflexive(best@);
    }
    while i < candidates.len()
        invariant
            cv == texts(candidates@),
            1 <= i <= candidates@.len(),
            best_index < i,
            best@ == cv[best_index as int],
            forall|k: int| 0 <= k < i ==> !text_lt(best@, #[trigger] cv[k]),
        decreases candidates@.len() - i,
    {
        let next = chars_of(candidates[i].as_str());
        if text_less(best.as_slice(), next.as_slice()) {
            proof {
                assert forall|k: int| 0 <= k < i + 1 implies !text_lt(next@, #[trigger] cv[k]) by {
                    if k < i {
                        lemma_text_lt_total(best@, cv[k]);
                        if text_lt(next@, cv[k]) {
                            if best@ == cv[k] {
                                lemma_text_lt_irreflexive(best@);
                                lemma_text_lt_transitive(best@, next@, best@);
                            } else {
                                lemma_text_lt_transitive(best@, next@, cv[k]);
                            }
                        }
                    } else {
                        lemma_text_lt_irreflexive(next@);
                    }
                }
            }
            best = next;
            best_index = i;
        }
        i = i + 1;
    }
    proof {
        assert(cv[best_index as int] == best@);
        assert(cv.contains(best@));
    }
    Some(string_from_chars(best.as_slice()))
}

/// `s` without the `c`s it ends with (std's `str::trim_end_matches` with a character).
pub open spec fn trim_trailing(s: Seq<char>, c: char) -> Seq<char>
    decreases s.len(),
{
    if s.len() > 0 && s.last() == c {
        trim_trailing(s.drop_last(), c)
    } else {
        s
    }
}

/// The directory that lists a template's images: its link without trailing `/`.
pub fn image_directory(link: &str) -> (dir: Vec<char>)
    ensures
        dir@ == trim_trailing(link@, '/'),
{
    let mut dir = chars_of(link);
    while dir.len() > 0 && dir[dir.len() - 1] == '/'
        invariant
            trim_trailing(dir@, '/') == trim_trailing(link@, '/'),
        decreases dir@.len(),
    {
        dir.pop();
    }
    dir
}

/// The page to fetch to find a template's image: its image directory followed
/// by `/`, when the template names an artifact; else there is none to fetch.
pub open spec fn listing_address(link: Seq<char>, artifact: Option<Seq<char>>) -> Option<Seq<char>> {
    match artifact {
        Some(_) => Some(trim_trailing(link, '/') + "/"@),
        None => None,
    }
}

/// The page to fetch to find the image of `template`, if any.
pub fn listing_url(template: &Template) -> (url: Option<String>)
    ensures
        match url {
            Some(u) => listing_address(template@.link, template@.artifact) == Some(u@),
            None => listing_address(template@.link, template@.artifact) is None,
        },
{
    match &template.artifact {
        None => None,
        Some(_) => {
            let dir = image_directory(template.link.as_str());
            let mut url = string_from_chars(dir.as_slice());
            url.append("/");
            Some(url)
        },
    }
}

/// Why no image URL was found.
#[derive(Debug)]
pub enum ResolveError {
    /// The pattern for the artifact is no regex that compiles (with the regex error's text).
    InvalidPattern(String),
    /// The listing links to no dated image whose name begins with the artifact.
    NoMatchingImage,
}

/// The dated images that the listing page links to for `artifact`.
pub open spec fn image_candidates(artifact: Seq<char>, listing: Seq<char>) -> Seq<Seq<char>> {
    dated(present(regex_first_groups(image_link_pattern(artifact), listing)), artifact.len() as int)
}

/// What resolving a template's image gives, given the listing page of its
/// directory: the link itself when the template names no artifact; else the
/// newest dated image linked from the listing whose name begins with the artifact.
pub open spec fn resolved(template_link: Seq<char>, artifact: Option<Seq<char>>, listing: Seq<char>, url: Seq<char>) -> bool {
    match artifact {
        None => url == template_link,
        Some(a) => exists|name: Seq<char>|
            is_newest(image_candidates(a, listing), name) && url == trim_trailing(
                template_link,
                '/',
            ) + "/"@ + name,
    }
}

/// The URL of the image to download for `template`, given the listing page of
/// its image directory (ignored when the template names no artifact).
pub fn resolve_download_url(template: &Template, listing: &str) -> (r: Result<String, ResolveError>)
    ensures
        match r {
            Ok(url) => resolved(template@.link, template@.artifact, listing@, url@),
            Err(ResolveError::InvalidPattern(_)) => template@.artifact matches Some(a)
                && !regex_compiles(image_link_pattern(a)),
            Err(ResolveError::NoMatchingImage) => template@.artifact matches Some(a)
                && regex_compiles(image_link_pattern(a))
                && image_candidates(a, listing@).len() == 0,
        },
{
    let artifact = match &template.artifact {
        None => return Ok(template.link.clone()),
        Some(a) => a,
    };
    let escaped = escape_regex(artifact.as_str());
    let mut pattern = string_from_chars(chars_of("href=\"(").as_slice());
    pattern.append(escaped.as_str());
    pattern.append("[^\"]+\\.qcow2)\"");
    assert(pattern@ =~= image_link_pattern(artifact@));
    let matcher = match ListingPattern::compile(pattern) {
        Ok(p) => p,
        Err(message) => return Err(ResolveError::InvalidPattern(message)),
    };
    let matches = present_texts(first_groups(&matcher, listing));
    let artifact_chars = chars_of(artifact.as_str());
    let candidates = dated_images(matches, artifact_chars.len());
    let filename = match newest_image(candidates.as_slice()) {
        Some(name) => name,
        None => return Err(ResolveError::NoMatchingImage),
    };
    let dir = image_directory(template.link.as_str());
    let mut url = string_from_chars(dir.as_slice());
    url.append("/");
    url.append(filename.as_str());
    assert(is_newest(image_candidates(artifact@, listing@), filename@));
    assert(url@ == trim_trailing(template@.link, '/') + "/"@ + filename@);
    Ok(url)
}

/// How many times a failed download is tried again.
pub const DOWNLOAD_RETRIES: u64 = 3;

/// After a download request: `None` to stop (it succeeded, or the retries are
/// spent), else the number of the retry to make, which is also how many
/// seconds to wait before it.
pub fn next_download_attempt(succeeded: bool, attempt: u64) -> (next: Option<u64>)
    ensures
        next == (if succeeded || attempt >= DOWNLOAD_RETRIES {
            None::<u64>
        } else {
            Some((attempt + 1) as u64)
        }),
{
    if succeeded || attempt >= DOWNLOAD_RETRIES {
        None
    } else {
        Some(attempt + 1)
    }
}

/// The file name of a downloaded image: the last segment of the path of the
/// URL it came from, else `template-VMID.img`.
pub open spec fn download_name(last_segment: Option<Seq<char>>, vmid: i32) -> Seq<char> {
    match last_segment {
        Some(s) => s,
        None => "template-"@ + decimal(vmid as int) + ".img"@,
    }
}

/// The file name to store a downloaded image under.
pub fn download_file_name(last_segment: Option<String>, vmid: i32) -> (name: String)
    ensures
        name@ == download_name(
            match last_segment {
                Some(s) => Some(s@),
                None => None,
            },
            vmid,
        ),
{
    match last_segment {
        Some(s) => s,
        None => {
            let mut name = string_from_chars(chars_of("template-").as_slice());
            let digits = decimal_chars(vmid as i64);
            let digit_text = string_from_chars(digits.as_slice());
            name.append(digit_text.as_str());
            name.append(".img");
            name
        },
    }
}

} // verus!
