//! Where configuration documents are loaded from: the local filesystem or S3.
//!
//! This enables deployments where the router container is generic and the routing configuration
//! is provided dynamically (for example, uploaded to S3 at deploy-time and referenced via env
//! vars).
use vstd::prelude::*;
use vstd::slice::*;
use vstd::string::*;

use crate::text;

verus! {

/// The parts of a URL.
#[derive(Debug)]
pub struct UrlParts {
    pub scheme: String,
    pub host: Option<String>,
    /// The port, or that of the scheme where it has a known one.
    pub port: Option<u16>,
    pub path: String,
}

/// What the parts of a URL say: scheme, host, port and path.
pub type UrlView = (Seq<char>, Option<Seq<char>>, Option<u16>, Seq<char>);

impl View for UrlParts {
    type V = (Seq<char>, Option<Seq<char>>, Option<u16>, Seq<char>);

    open spec fn view(&self) -> UrlView {
        (self.scheme@, text::opt_text(self.host), self.port, self.path@)
    }
}

/// The view of the optional parts of a URL.
pub open spec fn opt_parts(parts: Option<UrlParts>) -> Option<UrlView> {
    match parts {
        Some(p) => Some(p@),
        None => None,
    }
}

/// The parts of a URL as the `url` crate reads it, or none where it is not one: scheme, host,
/// port and path.
pub uninterp spec fn url_parts(s: Seq<char>) -> Option<
    (Seq<char>, Option<Seq<char>>, Option<u16>, Seq<char>),
>;

/// `url::Url::parse`, and `scheme`, `host_str`, `port_or_known_default` and `path` of what it
/// reads.
#[verifier::external_body]
pub(crate) fn parse_url(s: &str) -> (r: Option<UrlParts>)
    ensures
        opt_parts(r) == url_parts(s@),
{
    let url = url::Url::parse(s).ok()?;
    Some(
        UrlParts {
            scheme: url.scheme().to_string(),
            host: url.host_str().map(|h| h.to_string()),
            port: url.port_or_known_default(),
            path: url.path().to_string(),
        },
    )
}

#[derive(Debug, PartialEq, Eq)]
pub enum DocumentLocation {
    File(String),
    S3 { bucket: String, key: String },
}

/// What a document location says.
#[verifier::ext_equal]
pub enum LocationView {
    File(Seq<char>),
    S3 { bucket: Seq<char>, key: Seq<char> },
}

impl View for DocumentLocation {
    type V = LocationView;

    open spec fn view(&self) -> LocationView {
        match self {
            DocumentLocation::File(p) => LocationView::File(p@),
            DocumentLocation::S3 { bucket, key } => LocationView::S3 { bucket: bucket@, key: key@ },
        }
    }
}

/// The value of a hexadecimal digit.
pub open spec fn hex_value(b: u8) -> Option<u8> {
    if 48 <= b <= 57 {
        Some((b - 48) as u8)
    } else if 65 <= b <= 70 {
        Some((b - 55) as u8)
    } else if 97 <= b <= 102 {
        Some((b - 87) as u8)
    } else {
        None
    }
}

/// The byte that stands percent-encoded at the start of some bytes.
pub open spec fn encoded_byte(s: Seq<u8>) -> Option<u8> {
    if s.len() >= 3 && s[0] == 37 {
        match (hex_value(s[1]), hex_value(s[2])) {
            (Some(h), Some(l)) => Some((h * 16 + l) as u8),
            _ => None,
        }
    } else {
        None
    }
}

/// Bytes with what is percent-encoded among them decoded.
pub open spec fn percent_decoded(s: Seq<u8>) -> Seq<u8>
    decreases s.len(),
{
    if s.len() == 0 {
        Seq::empty()
    } else {
        match encoded_byte(s) {
            Some(b) => seq![b] + percent_decoded(s.skip(3)),
            None => seq![s[0]] + percent_decoded(s.drop_first()),
        }
    }
}

fn from_hex(b: u8) -> (r: Option<u8>)
    ensures
        r == hex_value(b),
        r matches Some(v) ==> v < 16,
{
    if 48 <= b && b <= 57 {
        Some(b - 48)
    } else if 65 <= b && b <= 70 {
        Some(b - 55)
    } else if 97 <= b && b <= 102 {
        Some(b - 87)
    } else {
        None
    }
}

/// Decodes what is percent-encoded.
fn percent_decode(s: &[u8]) -> (r: Vec<u8>)
    ensures
        r@ == percent_decoded(s@),
{
    let mut out: Vec<u8> = Vec::new();
    let mut i: usize = 0;
    assert(s@.skip(0) =~= s@);
    assert(out@ + percent_decoded(s@) =~= percent_decoded(s@));
    while i < s.len()
        invariant
            i <= s@.len(),
            out@ + percent_decoded(s@.skip(i as int)) == percent_decoded(s@),
        decreases s@.len() - i,
    {
        let ghost rest = s@.skip(i as int);
        let ghost before = out@;
        if s[i] == 37 && s.len() - i >= 3 {
            if let (Some(h), Some(l)) = (from_hex(s[i + 1]), from_hex(s[i + 2])) {
                let b: u8 = h * 16 + l;
                out.push(b);
                proof {
                    assert(encoded_byte(rest) == Some(b));
                    assert(rest.skip(3) =~= s@.skip(i + 3));
                    let tail = percent_decoded(s@.skip(i + 3));
                    assert(before + (seq![b] + tail) =~= before.push(b) + tail);
                }
                i = i + 3;
                continue ;
            }
        }
        out.push(s[i]);
        proof {
            assert(encoded_byte(rest) is None);
            assert(rest.drop_first() =~= s@.skip(i + 1));
            let tail = percent_decoded(s@.skip(i + 1));
            assert(before + (seq![rest[0]] + tail) =~= before.push(rest[0]) + tail);
        }
        i = i + 1;
    }
    assert(out@ + percent_decoded(s@.skip(s@.len() as int)) =~= out@);
    out
}

/// The file that a `file` URL names, on this machine.
pub open spec fn file_of(host: Option<Seq<char>>, path: Seq<char>) -> Option<Seq<char>> {
    let bytes = percent_decoded(vstd::utf8::encode_utf8(path));
    if (host is None || host == Some("localhost"@)) && vstd::utf8::valid_utf8(bytes) {
        Some(vstd::utf8::decode_utf8(bytes))
    } else {
        None
    }
}

/// The location that a text with these URL parts stands for: `s3` and `file` URLs are read,
/// and everything else is a path.
pub open spec fn location_of(s: Seq<char>, parts: Option<UrlView>) -> Result<
    LocationView,
    Seq<char>,
> {
    match parts {
        None => Ok(LocationView::File(s)),
        Some((scheme, host, _, path)) => if scheme == "s3"@ {
            match host {
                None => Err("s3 uri must include a bucket name"@),
                Some(bucket) => {
                    let key = text::without_leading(path, '/');
                    if key.len() == 0 {
                        Err("s3 uri must include a key (path)"@)
                    } else {
                        Ok(LocationView::S3 { bucket, key })
                    }
                },
            }
        } else if scheme == "file"@ {
            match file_of(host, path) {
                Some(p) => Ok(LocationView::File(p)),
                None => Err("file uri must name a local file"@),
            }
        } else {
            Ok(LocationView::File(s))
        },
    }
}

/// The view of a result that holds a location or an error text.
pub open spec fn location_result(r: Result<DocumentLocation, String>) -> Result<
    LocationView,
    Seq<char>,
> {
    match r {
        Ok(l) => Ok(l@),
        Err(e) => Err(e@),
    }
}

/// The file that a `file` URL names.
fn local_file(host: &Option<String>, path: &str) -> (r: Option<String>)
    ensures
        text::opt_text(r) == file_of(text::opt_text(*host), path@),
{
    if let Some(h) = host {
        if !text::same_text(h.as_str(), "localhost") {
            return None;
        }
    }
    let bytes = percent_decode(path.as_bytes());
    text::read_utf8(bytes.as_slice())
}

impl DocumentLocation {
    /// Reads a location: an `s3` or `file` URL, or a path.
    pub fn parse(s: &str) -> (r: Result<Self, String>)
        ensures
            location_result(r) == location_of(s@, url_parts(s@)),
    {
        let parts = parse_url(s);
        Self::from_parts(s, parts)
    }

    /// The location that a text with these URL parts stands for.
    pub fn from_parts(s: &str, parts: Option<UrlParts>) -> (r: Result<Self, String>)
        ensures
            location_result(r) == location_of(s@, opt_parts(parts)),
    {
        let url = match parts {
            Some(u) => u,
            None => {
                return Ok(DocumentLocation::File(s.to_owned()));
            },
        };
        if text::same_text(url.scheme.as_str(), "s3") {
            let bucket = match url.host {
                Some(h) => h,
                None => {
                    return Err("s3 uri must include a bucket name".to_owned());
                },
            };
            let key = text::trim_start_matches(url.path.as_str(), '/');
            if text::is_empty(key.as_str()) {
                return Err("s3 uri must include a key (path)".to_owned());
            }
            Ok(DocumentLocation::S3 { bucket, key })
        } else if text::same_text(url.scheme.as_str(), "file") {
            match local_file(&url.host, url.path.as_str()) {
                Some(p) => Ok(DocumentLocation::File(p)),
                None => Err("file uri must name a local file".to_owned()),
            }
        } else {
            Ok(DocumentLocation::File(s.to_owned()))
        }
    }
}

} // verus!
