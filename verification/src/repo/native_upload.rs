//! Adapts the native publish protocols (npm's attachment envelope, twine's legacy
//! form) onto the managed upload contract: both are re-encoded as the multipart body
//! that a managed upload is.

use vstd::prelude::*;
use vstd::string::StrSliceExecFns;
use vstd::utf8::encode_utf8;

use crate::bridge::{base64_bytes, json_values, pairs, parse_values};
use crate::json::{find_member, json_values_at, named_in, values_at, Members};
use crate::repo::npm_serve::{base64_decode_stream, read_string_member, string_member};
use crate::repo::path::{base_name, path_base};
use crate::repo::reply::{answer, http_error, Reply, BAD_REQUEST, INTERNAL_SERVER_ERROR};
use crate::text::{cat, replace, replaced, same};

verus! {

/// How many bytes of a form field that is not forwarded are read.
pub const MAX_FIELD_BYTES: i64 = 1_048_576;

/// The principal that a protocol publish is attributed to, and where it comes from.
/// Clients without credentials publish as `native-client`.
pub fn native_upload_principal(principal: Option<(&str, &str)>) -> (r: (String, String))
    ensures
        match principal {
            Some((name, source)) => r.0@ == name@ && r.1@ == source@,
            None => r.0@ == "native-client"@ && r.1@ == "protocol"@,
        },
{
    match principal {
        Some((name, source)) => (name.to_owned(), source.to_owned()),
        None => ("native-client".to_owned(), "protocol".to_owned()),
    }
}

// ---------------------------------------------------------------------------
// npm

/// The one attachment of a publish document, ready to be uploaded.
pub struct NpmUpload {
    pub filename: String,
    pub tarball: Vec<u8>,
    pub dist_tag: String,
}

/// The tag that a publish document names: "latest", unless it names others only; the
/// first of them then.
pub open spec fn dist_tag(tags: Members) -> Seq<char> {
    if tags.len() == 0 || named_in(tags, "latest"@) {
        "latest"@
    } else {
        tags[0].0
    }
}

/// Why an attachment is refused; nothing where it is not.
pub open spec fn attachment_problem(atts: Members) -> Option<Seq<char>> {
    if atts.len() != 1 {
        Some("publish document must contain exactly one attachment"@)
    } else {
        match json_values(encode_utf8(atts[0].1)) {
            None => Some("invalid attachment"@),
            Some(m) => {
                let data = string_member(m, "data"@);
                if atts[0].0.len() == 0 || data.len() == 0 {
                    Some("attachment data is required"@)
                } else if base64_bytes(data) is None {
                    Some("invalid npm attachment"@)
                } else {
                    None
                }
            },
        }
    }
}

/// Converts npm's base64 attachment envelope. The document must carry exactly one
/// attachment; of its name only the last element is kept, since a scoped package
/// arrives with a slash in it.
pub fn npm_publish_atomic(body: &[u8]) -> (r: Result<NpmUpload, Reply>)
    ensures
        ({
            let atts = json_values_at(body@, "_attachments"@);
            let tags = json_values_at(body@, "dist-tags"@);
            match r {
                Ok(up) => {
                    &&& attachment_problem(atts) is None
                    &&& up.filename@ == base_name(atts[0].0)
                    &&& json_values(encode_utf8(atts[0].1)) is Some
                    &&& base64_bytes(
                        string_member(json_values(encode_utf8(atts[0].1))->0, "data"@),
                    ) == Some(up.tarball@)
                    &&& up.dist_tag@ == dist_tag(tags)
                },
                Err(a) => {
                    &&& attachment_problem(atts) is Some
                    &&& a@ == answer(BAD_REQUEST, attachment_problem(atts)->0)
                },
            }
        }),
{
    let atts = values_at(body, "_attachments");
    let ghost all = pairs(atts@);
    assert(all.len() == atts@.len());
    if atts.len() != 1 {
        return Err(
            http_error(BAD_REQUEST, "publish document must contain exactly one attachment"),
        );
    }
    assert(all[0] == (atts@[0].0@, atts@[0].1@));
    let members = match parse_values(atts[0].1.as_str().as_bytes()) {
        Some(m) => m,
        None => return Err(http_error(BAD_REQUEST, "invalid attachment")),
    };
    let data = read_string_member(&members, "data");
    if atts[0].0.as_str().unicode_len() == 0 || data.as_str().unicode_len() == 0 {
        return Err(http_error(BAD_REQUEST, "attachment data is required"));
    }
    let tags = values_at(body, "dist-tags");
    assert(pairs(tags@).len() == tags@.len());
    let tag = if tags.len() == 0 || find_member(&tags, "latest").is_some() {
        "latest".to_owned()
    } else {
        assert(pairs(tags@)[0] == (tags@[0].0@, tags@[0].1@));
        tags[0].0.as_str().to_owned()
    };
    let tarball = match base64_decode_stream(data.as_str()) {
        Ok(t) => t,
        Err(_) => return Err(http_error(BAD_REQUEST, "invalid npm attachment")),
    };
    Ok(NpmUpload { filename: path_base(atts[0].0.as_str()), tarball, dist_tag: tag })
}

// ---------------------------------------------------------------------------
// The legacy form

/// What becomes of one field of the legacy form.
pub enum FieldStep {
    /// Read past it.
    Skip,
    /// Forward it as the distribution.
    Forward,
    /// Give up.
    Fail(&'static str),
}

/// The fields of a legacy form seen so far. Exactly one holds the distribution.
pub struct ContentFields {
    pub found: bool,
}

/// A field holds the distribution.
pub open spec fn is_content(name: Option<&str>) -> bool {
    name is Some && name->0@ == "content"@
}

/// Whether more is read of a form field that is dropped, once `seen` bytes of it have
/// come.
pub fn reads_on(seen: i64) -> (r: bool)
    ensures
        r == (seen < MAX_FIELD_BYTES),
{
    seen < MAX_FIELD_BYTES
}

impl ContentFields {
    /// No field yet.
    pub fn new() -> (r: ContentFields)
        ensures
            !r.found,
    {
        ContentFields { found: false }
    }

    /// Takes the next field. Package identity is derived from the distribution, so
    /// every other field is dropped.
    pub fn step(&mut self, name: Option<&str>) -> (r: FieldStep)
        ensures
            match r {
                FieldStep::Skip => !is_content(name) && final(self).found == old(self).found,
                FieldStep::Forward => is_content(name) && !old(self).found && final(self).found,
                FieldStep::Fail(m) => is_content(name) && old(self).found && final(self).found && m@
                    == "duplicate content field"@,
            },
    {
        let content = match name {
            Some(n) => same(n, "content"),
            None => false,
        };
        if !content {
            return FieldStep::Skip;
        }
        if self.found {
            return FieldStep::Fail("duplicate content field");
        }
        self.found = true;
        FieldStep::Forward
    }

    /// What is wrong with a form that has ended here.
    pub fn finish(&self) -> (r: Option<&'static str>)
        ensures
            match r {
                Some(m) => !self.found && m@ == "missing content field"@,
                None => self.found,
            },
    {
        if self.found {
            None
        } else {
            Some("missing content field")
        }
    }
}

// ---------------------------------------------------------------------------
// Multipart framing

/// A value as it stands between quotes in a part's header.
pub open spec fn escaped(value: Seq<char>) -> Seq<char> {
    replaced(replaced(value, "\\"@, "\\\\"@), "\""@, "\\\""@)
}

/// Escapes backslashes and quotes.
pub fn escape_quotes(value: &str) -> (r: String)
    ensures
        r@ == escaped(value@),
{
    proof {
        reveal_strlit("\\");
        reveal_strlit("\"");
    }
    let once = replace(value, "\\", "\\\\");
    replace(once.as_str(), "\"", "\\\"")
}

/// The content type that announces a boundary.
pub fn multipart_content_type(boundary: &str) -> (r: String)
    ensures
        r@ == "multipart/form-data; boundary="@ + boundary@,
{
    cat("multipart/form-data; boundary=", boundary)
}

/// The boundary of an upload: a random one, or a fixed one where there is none.
pub fn native_multipart_boundary(random: Option<&str>) -> (r: String)
    ensures
        r@ == match random {
            Some(b) => b@,
            None => "forkliftnativeupload"@,
        },
{
    match random {
        Some(b) => b.to_owned(),
        None => "forkliftnativeupload".to_owned(),
    }
}

/// The boundary and the headers of a part.
pub open spec fn part_header_text(
    boundary: Seq<char>,
    name: Seq<char>,
    filename: Option<Seq<char>>,
) -> Seq<char> {
    let head = "--"@ + boundary + "\r\nContent-Disposition: form-data; name=\""@ + escaped(name)
        + "\""@;
    match filename {
        Some(f) => head + "; filename=\""@ + escaped(f) + "\""@
            + "\r\nContent-Type: application/octet-stream"@ + "\r\n\r\n"@,
        None => head + "\r\n\r\n"@,
    }
}

/// Builds the boundary and the headers of a part.
pub fn part_header(boundary: &str, name: &str, filename: Option<&str>) -> (r: String)
    ensures
        r@ == part_header_text(
            boundary@,
            name@,
            match filename {
                Some(f) => Some(f@),
                None => None,
            },
        ),
{
    let quoted = escape_quotes(name);
    let mut header = cat("--", boundary);
    header.append("\r\nContent-Disposition: form-data; name=\"");
    header.append(quoted.as_str());
    header.append("\"");
    if let Some(f) = filename {
        let file = escape_quotes(f);
        header.append("; filename=\"");
        header.append(file.as_str());
        header.append("\"");
        header.append("\r\nContent-Type: application/octet-stream");
    }
    header.append("\r\n\r\n");
    header
}

/// Builds the line that ends a multipart body.
pub fn closing_boundary(boundary: &str) -> (r: String)
    ensures
        r@ == "--"@ + boundary@ + "--\r\n"@,
{
    let mut out = cat("--", boundary);
    out.append("--\r\n");
    out
}

/// Renders an upload problem the way the native protocols report errors: the detail
/// as plain text under the problem's own status, where it is one.
pub fn native_upload_problem(status: u16, detail: &str) -> (r: Reply)
    ensures
        r@ == answer(
            if 100 <= status < 1000 {
                status
            } else {
                INTERNAL_SERVER_ERROR
            },
            detail@,
        ),
{
    if 100 <= status && status < 1000 {
        http_error(status, detail)
    } else {
        http_error(INTERNAL_SERVER_ERROR, detail)
    }
}

} // verus!
