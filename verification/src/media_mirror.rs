//! Where mirrored media go: object keys, public URLs and the storage
//! configuration read from the environment.

use vstd::prelude::*;
use crate::config::{required_env, required_env_spec, value_or, EnvConfigError, EnvValue};
use crate::sync_mastodon::yaml::string_views;
use crate::text::{
    chars_of, decimal, decimal_chars, find_last, last_index_before, last_index_of, same_text, slice_chars,
    starts_with, strip_end_char, strip_start_char, string_of, trim, trim_char, trim_end_char,
    trim_spec,
};

verus! {

/// The parts of a parsed URL that the mirror looks at.
#[derive(Debug, Clone)]
pub struct UrlParts {
    pub scheme: String,
    pub path: String,
    pub has_query: bool,
    pub has_fragment: bool,
}

/// What `Url::parse` (the `url` crate) makes of a text, where it accepts
/// it: the scheme, the path, and whether there is a query and a fragment.
pub uninterp spec fn url_parts(text: Seq<char>) -> Option<(Seq<char>, Seq<char>, bool, bool)>;

/// The view of parsed URL parts.
pub open spec fn parts_view(parts: Option<UrlParts>) -> Option<(Seq<char>, Seq<char>, bool, bool)> {
    match parts {
        Some(p) => Some((p.scheme@, p.path@, p.has_query, p.has_fragment)),
        None => None,
    }
}

/// Calls `Url::parse` and reads `scheme()`, `path()`, and whether `query()`
/// and `fragment()` are there. Claims only that the result is the named
/// `url_parts` of the text.
#[verifier::external_body]
fn parse_url(text: &str) -> (r: Option<UrlParts>)
    ensures
        parts_view(r) == url_parts(text@),
{
    match reqwest::Url::parse(text) {
        Ok(url) => Some(UrlParts {
            scheme: url.scheme().to_string(),
            path: url.path().to_string(),
            has_query: url.query().is_some(),
            has_fragment: url.fragment().is_some(),
        }),
        Err(_) => None,
    }
}

/// The file extensions that `mime_guess::get_mime_extensions_str` lists for
/// a MIME type, where it knows the type.
pub uninterp spec fn mime_extensions(content_type: Seq<char>) -> Option<Seq<Seq<char>>>;

/// Calls `mime_guess::get_mime_extensions_str`, copying the extensions it
/// lists. Claims only that the result is the named `mime_extensions` of the
/// MIME type.
#[verifier::external_body]
fn guess_extensions(content_type: &str) -> (r: Option<Vec<String>>)
    ensures
        match r {
            Some(v) => mime_extensions(content_type@) == Some(string_views(v@)),
            None => mime_extensions(content_type@) is None,
        },
{
    mime_guess::get_mime_extensions_str(content_type).map(|list| list.iter().map(|e| e.to_string()).collect())
}

/// Is `c` an ASCII letter or digit (`char::is_ascii_alphanumeric`)?
pub open spec fn is_ascii_alphanumeric(c: char) -> bool {
    ('a' <= c && c <= 'z') || ('A' <= c && c <= 'Z') || ('0' <= c && c <= '9')
}

/// A file extension the mirror keeps: one to eight ASCII letters or digits.
pub open spec fn usable_extension(ext: Seq<char>) -> bool {
    &&& 0 < ext.len() <= 8
    &&& forall|i: int| 0 <= i < ext.len() ==> is_ascii_alphanumeric(#[trigger] ext[i])
}

/// What follows the last `c` in `s`, or all of `s` where there is none.
pub open spec fn after_last(s: Seq<char>, c: char) -> Seq<char> {
    match last_index_of(s, c) {
        Some(i) => s.skip(i + 1),
        None => s,
    }
}

/// The extension of a URL path: its last `/`-separated segment (there is
/// none where the path does not start with `/`), what follows the last `.`
/// of that segment, where that is a usable extension.
pub open spec fn path_extension(path: Seq<char>) -> Option<Seq<char>> {
    if path.len() == 0 || path[0] != '/' {
        None
    } else {
        let segment = after_last(path.drop_first(), '/');
        match last_index_of(segment, '.') {
            None => None,
            Some(i) => if usable_extension(segment.skip(i + 1)) {
                Some(segment.skip(i + 1))
            } else {
                None
            },
        }
    }
}

/// The extension of a URL: that of its path, where it parses.
pub open spec fn url_extension(url: Seq<char>) -> Option<Seq<char>> {
    match url_parts(url) {
        Some(parts) => path_extension(parts.1),
        None => None,
    }
}

/// The extensions the mirror gives the common media types itself.
pub open spec fn known_type_extension(content_type: Seq<char>) -> Option<Seq<char>> {
    if content_type == "image/jpeg"@ {
        Some("jpg"@)
    } else if content_type == "image/png"@ {
        Some("png"@)
    } else if content_type == "image/gif"@ {
        Some("gif"@)
    } else if content_type == "image/webp"@ {
        Some("webp"@)
    } else if content_type == "video/mp4"@ {
        Some("mp4"@)
    } else if content_type == "video/webm"@ {
        Some("webm"@)
    } else {
        None
    }
}

/// The first of the guessed extensions.
pub open spec fn first_guess(guessed: Option<Seq<Seq<char>>>) -> Option<Seq<char>> {
    match guessed {
        Some(list) => if list.len() > 0 { Some(list[0]) } else { None },
        None => None,
    }
}

/// The extension for a MIME type: the mirror's own for the common media
/// types, else the first that `mime_guess` lists.
pub open spec fn type_extension(content_type: Seq<char>) -> Option<Seq<char>> {
    match known_type_extension(content_type) {
        Some(ext) => Some(ext),
        None => first_guess(mime_extensions(content_type)),
    }
}

/// A key segment character: ASCII letters, digits, `-` and `_` stay, any
/// other character becomes `-`.
pub open spec fn key_char(c: char) -> char {
    if is_ascii_alphanumeric(c) || c == '-' || c == '_' {
        c
    } else {
        '-'
    }
}

/// A text made safe as one segment of an object key.
pub open spec fn sanitized(value: Seq<char>) -> Seq<char> {
    value.map_values(|c: char| key_char(c))
}

/// The view of an optional text.
pub open spec fn text_view(t: Option<String>) -> Option<Seq<char>> {
    match t {
        Some(s) => Some(s@),
        None => None,
    }
}

/// Is `c` an ASCII letter or digit?
fn ascii_alphanumeric(c: char) -> (r: bool)
    ensures
        r == is_ascii_alphanumeric(c),
{
    ('a' <= c && c <= 'z') || ('A' <= c && c <= 'Z') || ('0' <= c && c <= '9')
}

/// Makes a text safe as one segment of an object key.
pub fn sanitize_key_segment(value: &str) -> (r: String)
    ensures
        r@ == sanitized(value@),
{
    let s = chars_of(value);
    let mut out: Vec<char> = Vec::new();
    let mut i: usize = 0;
    while i < s.len()
        invariant
            i <= s@.len(),
            out@ == sanitized(s@.take(i as int)),
        decreases s.len() - i,
    {
        let c = s[i];
        let k = if ascii_alphanumeric(c) || c == '-' || c == '_' { c } else { '-' };
        out.push(k);
        assert(sanitized(s@.take(i + 1)) == sanitized(s@.take(i as int)).push(key_char(c)));
        i += 1;
    }
    assert(s@.take(s@.len() as int) == s@);
    string_of(&out)
}

/// Are all characters ASCII letters or digits, and are there one to eight?
fn is_usable_extension(ext: &Vec<char>) -> (r: bool)
    ensures
        r == usable_extension(ext@),
{
    if ext.len() == 0 || ext.len() > 8 {
        return false;
    }
    let mut i: usize = 0;
    while i < ext.len()
        invariant
            i <= ext@.len(),
            forall|k: int| 0 <= k < i ==> is_ascii_alphanumeric(#[trigger] ext@[k]),
        decreases ext.len() - i,
    {
        if !ascii_alphanumeric(ext[i]) {
            return false;
        }
        i += 1;
    }
    true
}

/// The extension of a URL path.
pub fn extension_from_path(path: &str) -> (r: Option<String>)
    ensures
        text_view(r) == path_extension(path@),
{
    let p = chars_of(path);
    if p.len() == 0 || p[0] != '/' {
        return None;
    }
    let rest = slice_chars(&p, 1, p.len());
    assert(rest@ == p@.drop_first());
    let segment = match find_last(&rest, '/') {
        Some(i) => slice_chars(&rest, i + 1, rest.len()),
        None => rest,
    };
    match find_last(&segment, '.') {
        None => None,
        Some(i) => {
            let ext = slice_chars(&segment, i + 1, segment.len());
            if is_usable_extension(&ext) {
                Some(string_of(&ext))
            } else {
                None
            }
        },
    }
}

/// The extension of a media URL, where it has a usable one.
pub fn extension_from_url(url: &str) -> (r: Option<String>)
    ensures
        text_view(r) == url_extension(url@),
{
    match parse_url(url) {
        Some(parts) => extension_from_path(parts.path.as_str()),
        None => None,
    }
}

/// The mirror's own extension for a common media type.
pub fn known_extension(content_type: &str) -> (r: Option<String>)
    ensures
        text_view(r) == known_type_extension(content_type@),
{
    if same_text(content_type, "image/jpeg") {
        Some("jpg".to_string())
    } else if same_text(content_type, "image/png") {
        Some("png".to_string())
    } else if same_text(content_type, "image/gif") {
        Some("gif".to_string())
    } else if same_text(content_type, "image/webp") {
        Some("webp".to_string())
    } else if same_text(content_type, "video/mp4") {
        Some("mp4".to_string())
    } else if same_text(content_type, "video/webm") {
        Some("webm".to_string())
    } else {
        None
    }
}

/// The first of the extensions guessed for a type.
pub fn first_extension(guessed: Option<Vec<String>>) -> (r: Option<String>)
    ensures
        text_view(r) == first_guess(match guessed {
            Some(v) => Some(string_views(v@)),
            None => None,
        }),
{
    match guessed {
        Some(list) => {
            if list.len() > 0 {
                Some(list[0].clone())
            } else {
                None
            }
        },
        None => None,
    }
}

/// The extension for a MIME type.
pub fn extension_from_content_type(content_type: &str) -> (r: Option<String>)
    ensures
        text_view(r) == type_extension(content_type@),
{
    match known_extension(content_type) {
        Some(ext) => Some(ext),
        None => first_extension(guess_extensions(content_type)),
    }
}

/// The MIME type of a `Content-Type` header value: what comes before the
/// first `;`, without surrounding white space.
pub open spec fn content_type_essence_of(header: Seq<char>) -> Seq<char> {
    match first_index_of(header, ';') {
        Some(i) => trim_spec(header.take(i)),
        None => trim_spec(header),
    }
}

/// The position of the first `c` in `s` from `start` on.
pub open spec fn first_index_from(s: Seq<char>, c: char, start: int) -> Option<int>
    decreases s.len() - start,
{
    if start < 0 || start >= s.len() {
        None
    } else if s[start] == c {
        Some(start)
    } else {
        first_index_from(s, c, start + 1)
    }
}

/// The position of the first `c` in `s`.
pub open spec fn first_index_of(s: Seq<char>, c: char) -> Option<int> {
    first_index_from(s, c, 0)
}

/// The MIME type of a `Content-Type` header value.
pub fn content_type_essence(header: &str) -> (r: String)
    ensures
        r@ == content_type_essence_of(header@),
{
    let s = chars_of(header);
    let mut i: usize = 0;
    while i < s.len()
        invariant
            s@ == header@,
            i <= s@.len(),
            first_index_of(s@, ';') == first_index_from(s@, ';', i as int),
        decreases s.len() - i,
    {
        if s[i] == ';' {
            let head = slice_chars(&s, 0, i);
            assert(head@ == s@.take(i as int));
            return string_of(&trim(&head));
        }
        i += 1;
    }
    string_of(&trim(&s))
}

/// Where mirrored media are published: the public base URL of the bucket
/// and the prefix of the object keys.
#[derive(Debug, Clone)]
pub struct MediaMirrorTargetConfig {
    pub public_base_url: String,
    pub key_prefix: String,
}

/// The object key of a media item: the key prefix without surrounding
/// slashes, the sanitized source id, and the item's number (its index plus
/// one) with its extension: that of the source URL, else the one for its
/// content type, else `bin`.
pub open spec fn object_key_of(
    key_prefix: Seq<char>,
    source_id: Seq<char>,
    media_index: nat,
    source_url: Seq<char>,
    content_type: Option<Seq<char>>,
) -> Seq<char> {
    let extension = match url_extension(source_url) {
        Some(ext) => ext,
        None => match content_type {
            Some(ct) => match type_extension(ct) {
                Some(ext) => ext,
                None => "bin"@,
            },
            None => "bin"@,
        },
    };
    strip_end_char(strip_start_char(key_prefix, '/'), '/') + "/"@ + sanitized(source_id) + "/"@
        + decimal(media_index + 1) + "."@ + extension
}

/// Does `s` start with `prefix`?
pub open spec fn has_prefix(s: Seq<char>, prefix: Seq<char>) -> bool {
    prefix.len() <= s.len() && s.take(prefix.len() as int) == prefix
}

/// The view of an optional text.
pub open spec fn str_view(t: Option<&str>) -> Option<Seq<char>> {
    match t {
        Some(s) => Some(s@),
        None => None,
    }
}

impl MediaMirrorTargetConfig {
    /// The target from `B2_PUBLIC_BASE_URL` (required; trailing slashes are
    /// dropped) and `B2_KEY_PREFIX` (default `mastodon`).
    pub fn from_env(public_base_url: EnvValue, key_prefix: EnvValue) -> (r: Result<Self, MediaMirrorConfigError>)
        ensures
            match required_env_spec("B2_PUBLIC_BASE_URL", public_base_url) {
                Err(e) => r == Err::<Self, MediaMirrorConfigError>(MediaMirrorConfigError::from_env_error(e)),
                Ok(base) => r matches Ok(target) && {
                    &&& target.public_base_url@ == strip_end_char(base@, '/')
                    &&& target.key_prefix@ == match key_prefix {
                        EnvValue::Present(v) => v@,
                        _ => "mastodon"@,
                    }
                },
            },
    {
        let base = match required_env("B2_PUBLIC_BASE_URL", public_base_url) {
            Ok(v) => v,
            Err(e) => return Err(env_error(e)),
        };
        let public_base_url = string_of(&trim_end_char(&chars_of(base.as_str()), '/'));
        let key_prefix = value_or(key_prefix, "mastodon");
        Ok(MediaMirrorTargetConfig { public_base_url, key_prefix })
    }

    /// The object key of a media item.
    pub fn object_key(
        &self,
        source_id: &str,
        media_index: usize,
        source_url: &str,
        content_type: Option<&str>,
    ) -> (r: String)
        requires
            media_index < usize::MAX,
        ensures
            r@ == object_key_of(self.key_prefix@, source_id@, media_index as nat, source_url@, str_view(content_type)),
    {
        let extension = match extension_from_url(source_url) {
            Some(ext) => ext,
            None => match content_type {
                Some(ct) => match extension_from_content_type(ct) {
                    Some(ext) => ext,
                    None => "bin".to_string(),
                },
                None => "bin".to_string(),
            },
        };
        let prefix = string_of(&trim_char(&chars_of(self.key_prefix.as_str()), '/'));
        let mut r = prefix;
        r.append("/");
        let id = sanitize_key_segment(source_id);
        r.append(id.as_str());
        r.append("/");
        let number = string_of(&decimal_chars((media_index + 1) as u64));
        r.append(number.as_str());
        r.append(".");
        r.append(extension.as_str());
        r
    }

    /// The public URL of a mirrored object.
    pub fn object_url(&self, object_key: &str) -> (r: String)
        ensures
            r@ == self.public_base_url@ + "/"@ + object_key@,
    {
        let mut r = self.public_base_url.clone();
        r.append("/");
        r.append(object_key);
        r
    }

    /// The public URL a media item is mirrored to, with the extension taken
    /// from its source URL (else `bin`).
    pub fn public_url_for(&self, source_id: &str, media_index: usize, source_url: &str) -> (r: String)
        requires
            media_index < usize::MAX,
        ensures
            r@ == self.public_base_url@ + "/"@
                + object_key_of(self.key_prefix@, source_id@, media_index as nat, source_url@, None),
    {
        let key = self.object_key(source_id, media_index, source_url, None);
        self.object_url(key.as_str())
    }

    /// Is the URL already under the public base URL?
    pub fn is_mirrored_url(&self, url: &str) -> (r: bool)
        ensures
            r == has_prefix(url@, self.public_base_url@ + "/"@),
    {
        let mut base = self.public_base_url.clone();
        base.append("/");
        proof {
            reveal_strlit("/");
        }
        let u = chars_of(url);
        let b = chars_of(base.as_str());
        starts_with(&u, &b)
    }
}

/// What to upload for a downloaded media item, and where it is published.
#[derive(Debug, Clone)]
pub struct MirrorUpload {
    pub object_key: String,
    pub content_type: Option<String>,
    pub public_url: String,
}

impl MediaMirrorTargetConfig {
    /// The upload of a downloaded media item: the media type of its
    /// `Content-Type` header (where it had one), the object key made with
    /// it, and the public URL of that key.
    pub fn upload_plan(
        &self,
        source_id: &str,
        media_index: usize,
        source_url: &str,
        content_type_header: Option<&str>,
    ) -> (r: MirrorUpload)
        requires
            media_index < usize::MAX,
        ensures
            text_view(r.content_type) == match content_type_header {
                Some(h) => Some(content_type_essence_of(h@)),
                None => None,
            },
            r.object_key@ == object_key_of(
                self.key_prefix@,
                source_id@,
                media_index as nat,
                source_url@,
                text_view(r.content_type),
            ),
            r.public_url@ == self.public_base_url@ + "/"@ + r.object_key@,
    {
        let content_type = match content_type_header {
            Some(h) => Some(content_type_essence(h)),
            None => None,
        };
        let object_key = match &content_type {
            Some(ct) => self.object_key(source_id, media_index, source_url, Some(ct.as_str())),
            None => self.object_key(source_id, media_index, source_url, None),
        };
        let public_url = self.object_url(object_key.as_str());
        MirrorUpload { object_key, content_type, public_url }
    }
}

/// Why the mirror's configuration could not be read.
#[derive(Debug, Clone)]
pub enum MediaMirrorConfigError {
    MissingEnv { name: &'static str },
    ReadEnv { name: &'static str, source: String },
    InvalidEndpointUrl { name: &'static str, value: String, reason: &'static str },
}

impl MediaMirrorConfigError {
    /// The same error about an environment variable.
    pub open spec fn from_env_error(e: EnvConfigError) -> Self {
        match e {
            EnvConfigError::MissingEnv { name } => MediaMirrorConfigError::MissingEnv { name },
            EnvConfigError::ReadEnv { name, source } => MediaMirrorConfigError::ReadEnv { name, source },
        }
    }

    /// The error's text, as its `Display` shows it.
    pub fn message(&self) -> (r: String)
        ensures
            r@ == match self {
                MediaMirrorConfigError::MissingEnv { name } => "missing "@ + name@ + " environment variable"@,
                MediaMirrorConfigError::ReadEnv { name, source } => "failed to read "@ + name@
                    + " environment variable: "@ + source@,
                MediaMirrorConfigError::InvalidEndpointUrl { name, value, reason } => "invalid "@ + name@
                    + " environment variable `"@ + value@ + "`: "@ + reason@,
            },
    {
        match self {
            MediaMirrorConfigError::MissingEnv { name } => {
                let mut r = "missing ".to_string();
                r.append(name);
                r.append(" environment variable");
                r
            },
            MediaMirrorConfigError::ReadEnv { name, source } => {
                let mut r = "failed to read ".to_string();
                r.append(name);
                r.append(" environment variable: ");
                r.append(source.as_str());
                r
            },
            MediaMirrorConfigError::InvalidEndpointUrl { name, value, reason } => {
                let mut r = "invalid ".to_string();
                r.append(name);
                r.append(" environment variable `");
                r.append(value.as_str());
                r.append("`: ");
                r.append(reason);
                r
            },
        }
    }
}

/// Turns an error about an environment variable into the mirror's error.
fn env_error(e: EnvConfigError) -> (r: MediaMirrorConfigError)
    ensures
        r == MediaMirrorConfigError::from_env_error(e),
{
    match e {
        EnvConfigError::MissingEnv { name } => MediaMirrorConfigError::MissingEnv { name },
        EnvConfigError::ReadEnv { name, source } => MediaMirrorConfigError::ReadEnv { name, source },
    }
}

/// Why an endpoint URL does not parse.
pub open spec fn unparsable_endpoint_reason() -> Seq<char> {
    "expected an absolute URL such as https://s3.us-west-004.backblazeb2.com"@
}

/// Why an endpoint URL has the wrong scheme.
pub open spec fn wrong_scheme_reason() -> Seq<char> {
    "expected http or https scheme"@
}

/// Why an endpoint URL has more than the service root.
pub open spec fn not_root_reason() -> Seq<char> {
    "expected the S3 service root without a bucket path, query, or fragment"@
}

/// What checking an endpoint URL whose parse gave `parts` yields: the
/// reason it is refused, or the URL without trailing slashes. It must parse,
/// have the `http` or `https` scheme, and be the service root: path `/`, no
/// query and no fragment.
pub open spec fn endpoint_check(value: Seq<char>, parts: Option<(Seq<char>, Seq<char>, bool, bool)>) -> Result<Seq<char>, Seq<char>> {
    match parts {
        None => Err(unparsable_endpoint_reason()),
        Some((scheme, path, has_query, has_fragment)) => if !(scheme == "http"@ || scheme == "https"@) {
            Err(wrong_scheme_reason())
        } else if path != "/"@ || has_query || has_fragment {
            Err(not_root_reason())
        } else {
            Ok(strip_end_char(value, '/'))
        },
    }
}

/// Does the result of checking an endpoint match what `endpoint_check`
/// gives?
pub open spec fn endpoint_result_fits(
    name: &'static str,
    value: Seq<char>,
    check: Result<Seq<char>, Seq<char>>,
    r: Result<String, MediaMirrorConfigError>,
) -> bool {
    match check {
        Ok(v) => r matches Ok(url) && url@ == v,
        Err(why) => r matches Err(MediaMirrorConfigError::InvalidEndpointUrl { name: n, value: got, reason })
            && n == name && got@ == value && reason@ == why,
    }
}

/// Checks the endpoint URL `value` of the variable `name`, given what its
/// parse gave.
pub fn check_endpoint(name: &'static str, value: String, parts: Option<UrlParts>) -> (r: Result<String, MediaMirrorConfigError>)
    ensures
        endpoint_result_fits(name, value@, endpoint_check(value@, parts_view(parts)), r),
{
    match parts {
        None => Err(MediaMirrorConfigError::InvalidEndpointUrl {
            name,
            value,
            reason: "expected an absolute URL such as https://s3.us-west-004.backblazeb2.com",
        }),
        Some(p) => {
            if !(same_text(p.scheme.as_str(), "http") || same_text(p.scheme.as_str(), "https")) {
                return Err(MediaMirrorConfigError::InvalidEndpointUrl {
                    name,
                    value,
                    reason: "expected http or https scheme",
                });
            }
            if !same_text(p.path.as_str(), "/") || p.has_query || p.has_fragment {
                return Err(MediaMirrorConfigError::InvalidEndpointUrl {
                    name,
                    value,
                    reason: "expected the S3 service root without a bucket path, query, or fragment",
                });
            }
            Ok(string_of(&trim_end_char(&chars_of(value.as_str()), '/')))
        },
    }
}

/// Checks the endpoint URL `value` of the variable `name`: it must be an
/// absolute `http` or `https` URL of the service root; it is given back
/// without trailing slashes.
pub fn validate_endpoint_url(name: &'static str, value: String) -> (r: Result<String, MediaMirrorConfigError>)
    ensures
        endpoint_result_fits(name, value@, endpoint_check(value@, url_parts(value@)), r),
{
    let parts = parse_url(value.as_str());
    check_endpoint(name, value, parts)
}

/// The endpoint URL from the variable `name`: required, then checked.
pub fn endpoint_env(name: &'static str, value: EnvValue) -> (r: Result<String, MediaMirrorConfigError>)
    ensures
        match required_env_spec(name, value) {
            Err(e) => r == Err::<String, MediaMirrorConfigError>(MediaMirrorConfigError::from_env_error(e)),
            Ok(v) => endpoint_result_fits(name, v@, endpoint_check(v@, url_parts(v@)), r),
        },
{
    match required_env(name, value) {
        Ok(v) => validate_endpoint_url(name, v),
        Err(e) => Err(env_error(e)),
    }
}

/// Where and how media are mirrored: the S3 endpoint, bucket, region and
/// credentials, and the public target.
#[derive(Debug, Clone)]
pub struct MediaMirrorConfig {
    pub endpoint_url: String,
    pub bucket: String,
    pub region: String,
    pub access_key_id: String,
    pub secret_access_key: String,
    pub target: MediaMirrorTargetConfig,
}

/// The values of the variables the mirror reads.
#[derive(Debug, Clone)]
pub struct MediaMirrorEnv {
    pub endpoint: EnvValue,
    pub bucket: EnvValue,
    pub region: EnvValue,
    pub key_id: EnvValue,
    pub application_key: EnvValue,
    pub public_base_url: EnvValue,
    pub key_prefix: EnvValue,
}

/// Could the variable be read?
pub open spec fn is_set(value: EnvValue) -> bool {
    value is Present
}

impl MediaMirrorConfig {
    /// Does `r` fit the configuration read from these variables: from
    /// `B2_S3_ENDPOINT` (required and checked), `B2_BUCKET` (required),
    /// `B2_REGION` (default `us-west-004`), `B2_KEY_ID` and
    /// `B2_APPLICATION_KEY` (required), then the target, read in that order,
    /// the first that fails giving the error?
    pub open spec fn from_env_fits(env: MediaMirrorEnv, r: Result<Self, MediaMirrorConfigError>) -> bool {
        match required_env_spec("B2_S3_ENDPOINT", env.endpoint) {
            Err(e) => r == Err::<Self, MediaMirrorConfigError>(MediaMirrorConfigError::from_env_error(e)),
            Ok(endpoint) => match endpoint_check(endpoint@, url_parts(endpoint@)) {
                Err(why) => r matches Err(MediaMirrorConfigError::InvalidEndpointUrl { name, value, reason })
                    && name@ == "B2_S3_ENDPOINT"@ && value@ == endpoint@ && reason@ == why,
                Ok(endpoint_url) => match required_env_spec("B2_BUCKET", env.bucket) {
                    Err(e) => r == Err::<Self, MediaMirrorConfigError>(MediaMirrorConfigError::from_env_error(e)),
                    Ok(bucket) => match required_env_spec("B2_KEY_ID", env.key_id) {
                        Err(e) => r == Err::<Self, MediaMirrorConfigError>(MediaMirrorConfigError::from_env_error(e)),
                        Ok(key_id) => match required_env_spec("B2_APPLICATION_KEY", env.application_key) {
                            Err(e) => r == Err::<Self, MediaMirrorConfigError>(MediaMirrorConfigError::from_env_error(e)),
                            Ok(key) => match required_env_spec("B2_PUBLIC_BASE_URL", env.public_base_url) {
                                Err(e) => r == Err::<Self, MediaMirrorConfigError>(MediaMirrorConfigError::from_env_error(e)),
                                Ok(base) => r matches Ok(config) && {
                                    &&& config.endpoint_url@ == endpoint_url
                                    &&& config.bucket == bucket
                                    &&& config.region@ == match env.region {
                                        EnvValue::Present(v) => v@,
                                        _ => "us-west-004"@,
                                    }
                                    &&& config.access_key_id == key_id
                                    &&& config.secret_access_key == key
                                    &&& config.target.public_base_url@ == strip_end_char(base@, '/')
                                    &&& config.target.key_prefix@ == match env.key_prefix {
                                        EnvValue::Present(v) => v@,
                                        _ => "mastodon"@,
                                    }
                                },
                            },
                        },
                    },
                },
            },
        }
    }

    /// The configuration from the mirror's variables.
    pub fn from_env(env: MediaMirrorEnv) -> (r: Result<Self, MediaMirrorConfigError>)
        ensures
            Self::from_env_fits(env, r),
    {
        let endpoint_url = match endpoint_env("B2_S3_ENDPOINT", env.endpoint) {
            Ok(v) => v,
            Err(e) => return Err(e),
        };
        let bucket = match required_env("B2_BUCKET", env.bucket) {
            Ok(v) => v,
            Err(e) => return Err(env_error(e)),
        };
        let region = value_or(env.region, "us-west-004");
        let access_key_id = match required_env("B2_KEY_ID", env.key_id) {
            Ok(v) => v,
            Err(e) => return Err(env_error(e)),
        };
        let secret_access_key = match required_env("B2_APPLICATION_KEY", env.application_key) {
            Ok(v) => v,
            Err(e) => return Err(env_error(e)),
        };
        let target = match MediaMirrorTargetConfig::from_env(env.public_base_url, env.key_prefix) {
            Ok(t) => t,
            Err(e) => return Err(e),
        };
        Ok(MediaMirrorConfig { endpoint_url, bucket, region, access_key_id, secret_access_key, target })
    }

    /// The configuration where any of `B2_S3_ENDPOINT`, `B2_BUCKET`,
    /// `B2_KEY_ID`, `B2_APPLICATION_KEY` and `B2_PUBLIC_BASE_URL` is set
    /// (read as `from_env` does), else no configuration.
    pub fn optional_from_env(env: MediaMirrorEnv) -> (r: Result<Option<Self>, MediaMirrorConfigError>)
        ensures
            !(is_set(env.endpoint) || is_set(env.bucket) || is_set(env.key_id) || is_set(env.application_key)
                || is_set(env.public_base_url)) ==> r matches Ok(None),
            (is_set(env.endpoint) || is_set(env.bucket) || is_set(env.key_id) || is_set(env.application_key)
                || is_set(env.public_base_url)) ==> exists|c: Result<Self, MediaMirrorConfigError>| {
                &&& #[trigger] Self::from_env_fits(env, c)
                &&& match c {
                    Ok(config) => r == Ok::<Option<Self>, MediaMirrorConfigError>(Some(config)),
                    Err(e) => r == Err::<Option<Self>, MediaMirrorConfigError>(e),
                }
            },
    {
        let any_present = env.endpoint.is_present() || env.bucket.is_present() || env.key_id.is_present()
            || env.application_key.is_present() || env.public_base_url.is_present();
        if !any_present {
            return Ok(None);
        }
        let ghost env0 = env;
        match Self::from_env(env) {
            Ok(config) => {
                assert(Self::from_env_fits(env0, Ok(config)));
                Ok(Some(config))
            },
            Err(e) => {
                assert(Self::from_env_fits(env0, Err(e)));
                Err(e)
            },
        }
    }

    /// The public URL a media item is mirrored to.
    pub fn public_url_for(&self, source_id: &str, media_index: usize, source_url: &str) -> (r: String)
        requires
            media_index < usize::MAX,
        ensures
            r@ == self.target.public_base_url@ + "/"@
                + object_key_of(self.target.key_prefix@, source_id@, media_index as nat, source_url@, None),
    {
        self.target.public_url_for(source_id, media_index, source_url)
    }

    /// Is the URL already under the public base URL?
    pub fn is_mirrored_url(&self, url: &str) -> (r: bool)
        ensures
            r == has_prefix(url@, self.target.public_base_url@ + "/"@),
    {
        self.target.is_mirrored_url(url)
    }
}

/// A URL the mirror publishes a media item at is recognised as already
/// mirrored, so a later run leaves it as it is.
pub proof fn lemma_published_url_is_mirrored(
    target: MediaMirrorTargetConfig,
    source_id: Seq<char>,
    media_index: nat,
    source_url: Seq<char>,
    content_type: Option<Seq<char>>,
)
    ensures
        has_prefix(
            target.public_base_url@ + "/"@ + object_key_of(target.key_prefix@, source_id, media_index, source_url, content_type),
            target.public_base_url@ + "/"@,
        ),
{
    let prefix = target.public_base_url@ + "/"@;
    let key = object_key_of(target.key_prefix@, source_id, media_index, source_url, content_type);
    assert((prefix + key).take(prefix.len() as int) =~= prefix);
}

/// A sanitized key segment keeps the length of the text and holds only
/// ASCII letters, digits, `-` and `_`, so it never adds a `/` to a key;
/// those characters stay where they are, and each other becomes `-`.
pub proof fn lemma_sanitized_segment_is_safe(value: Seq<char>)
    ensures
        sanitized(value).len() == value.len(),
        forall|i: int| 0 <= i < value.len() ==> {
            let c = value[i];
            #[trigger] sanitized(value)[i] == if ('a' <= c && c <= 'z') || ('A' <= c && c <= 'Z')
                || ('0' <= c && c <= '9') || c == '-' || c == '_' { c } else { '-' }
        },
        forall|i: int| 0 <= i < value.len() ==> {
            let c = #[trigger] sanitized(value)[i];
            is_ascii_alphanumeric(c) || c == '-' || c == '_'
        },
        !sanitized(value).contains('/'),
{
    assert forall|i: int| 0 <= i < value.len() implies {
        let c = #[trigger] sanitized(value)[i];
        is_ascii_alphanumeric(c) || c == '-' || c == '_'
    } by {
        assert(sanitized(value)[i] == key_char(value[i]));
    }
    if sanitized(value).contains('/') {
        let i = choose|i: int| 0 <= i < sanitized(value).len() && sanitized(value)[i] == '/';
        assert(sanitized(value)[i] == key_char(value[i]));
    }
}

/// An accepted endpoint URL is given back without a trailing slash, as a
/// start of the configured text.
pub proof fn lemma_endpoint_has_no_trailing_slash(
    value: Seq<char>,
    parts: Option<(Seq<char>, Seq<char>, bool, bool)>,
)
    ensures
        endpoint_check(value, parts) matches Ok(url) ==> {
            &&& url.len() == 0 || url.last() != '/'
            &&& url == value.take(url.len() as int)
        },
{
    crate::text::lemma_strip_end_char(value, '/');
}

/// An extension the mirror keeps is exactly one of one to eight
/// characters, each an ASCII letter (`a`-`z`, `A`-`Z`) or an ASCII digit
/// (`0`-`9`): `mp4`, `m4a` and `jpeg` are kept, `tar-gz` and `verylongext`
/// are not.
pub proof fn lemma_usable_extensions(ext: Seq<char>)
    ensures
        usable_extension(ext) <==> (1 <= ext.len() <= 8 && forall|i: int| 0 <= i < ext.len() ==> {
            let c = #[trigger] ext[i];
            ('a' <= c && c <= 'z') || ('A' <= c && c <= 'Z') || ('0' <= c && c <= '9')
        }),
{
}

proof fn lemma_last_index_prefix(a: Seq<char>, b: Seq<char>, c: char, end: int)
    requires
        0 <= end <= a.len(),
    ensures
        last_index_before(a + b, c, end) == last_index_before(a, c, end),
    decreases end,
{
    if end > 0 {
        assert((a + b)[end - 1] == a[end - 1]);
        lemma_last_index_prefix(a, b, c, end - 1);
    }
}

proof fn lemma_last_index_skips(a: Seq<char>, b: Seq<char>, c: char, end: int)
    requires
        a.len() <= end <= a.len() + b.len(),
        !b.contains(c),
    ensures
        last_index_before(a + b, c, end) == last_index_before(a + b, c, a.len() as int),
    decreases end,
{
    if end > a.len() {
        assert((a + b)[end - 1] == b[end - 1 - a.len()]);
        if b[end - 1 - a.len()] == c {
            assert(b.contains(c));
        }
        lemma_last_index_skips(a, b, c, end - 1);
    }
}

/// The last `c` of `a + b`, where `b` holds none, is the last `c` of `a`.
proof fn lemma_last_index_after(a: Seq<char>, b: Seq<char>, c: char)
    requires
        !b.contains(c),
    ensures
        last_index_of(a + b, c) == last_index_of(a, c),
{
    lemma_last_index_skips(a, b, c, (a + b).len() as int);
    lemma_last_index_prefix(a, b, c, a.len() as int);
}

/// The extension of a URL path is what follows the last dot of its last
/// segment: for any path `/` + `head` + `.` + `ext` where `ext` holds no
/// `.` and no `/` and is a usable extension, it is `ext`. So the path
/// `/media_attachments/files/1/original/clip.mp4` has the extension `mp4`.
pub proof fn lemma_path_extension_is_last_suffix(head: Seq<char>, ext: Seq<char>)
    requires
        !ext.contains('.'),
        !ext.contains('/'),
        1 <= ext.len() <= 8,
        forall|i: int| 0 <= i < ext.len() ==> {
            let c = #[trigger] ext[i];
            ('a' <= c && c <= 'z') || ('A' <= c && c <= 'Z') || ('0' <= c && c <= '9')
        },
    ensures
        path_extension(seq!['/'] + head + seq!['.'] + ext) == Some(ext),
{
    let path = seq!['/'] + head + seq!['.'] + ext;
    let rest = path.drop_first();
    assert(rest =~= head + (seq!['.'] + ext));
    let tail = seq!['.'] + ext;
    assert(!tail.contains('/')) by {
        if tail.contains('/') {
            let i = choose|i: int| 0 <= i < tail.len() && tail[i] == '/';
            assert(i > 0);
            assert(ext[i - 1] == '/');
        }
    }
    lemma_last_index_after(head, tail, '/');
    let h2 = match last_index_of(head, '/') {
        Some(i) => head.skip(i + 1),
        None => head,
    };
    match last_index_of(head, '/') {
        Some(i) => {
            crate::text::lemma_last_index_of_bounds(head, '/');
            assert(rest.skip(i + 1) =~= h2 + seq!['.'] + ext);
        },
        None => {
            assert(rest =~= h2 + seq!['.'] + ext);
        },
    }
    let segment = after_last(rest, '/');
    assert(segment =~= (h2 + seq!['.']) + ext);
    lemma_last_index_after(h2 + seq!['.'], ext, '.');
    assert((h2 + seq!['.'])[h2.len() as int] == '.');
    assert(last_index_of(h2 + seq!['.'], '.') == Some(h2.len() as int));
    assert(segment.skip(h2.len() as int + 1) =~= ext);
    lemma_usable_extensions(ext);
}

} // verus!
