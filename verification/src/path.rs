//! The path under which a ping is submitted.

use vstd::prelude::*;
use vstd::string::*;
use crate::error::Error;
use crate::text::{dasherize, dasherized, decimal, render_decimal};

verus! {

/// The version of the ping envelope, a segment of every submission path.
pub const SCHEMA_VERSION: u32 = 1;

/// `/submit/<application id, dots as dashes>/<ping name>/<schema version>/<document id>`.
pub open spec fn submission_path(
    application_id: Seq<char>,
    ping_name: Seq<char>,
    doc_id: Seq<char>,
) -> Seq<char> {
    "/submit/"@ + dasherized(application_id) + "/"@ + ping_name + "/"@ + decimal(
        SCHEMA_VERSION as nat,
    ) + "/"@ + doc_id
}

/// Builds the submission path of the ping `ping_name` with the document id
/// `doc_id`, for the application `application_id`.
///
/// An empty ping name or document id is rejected.
pub fn make_path(application_id: &str, ping_name: &str, doc_id: &str) -> (out: Result<
    String,
    Error,
>)
    ensures
        ping_name@.len() == 0 || doc_id@.len() == 0 ==> out == Err::<String, Error>(
            Error::InvalidArgument,
        ),
        ping_name@.len() > 0 && doc_id@.len() > 0 ==> out is Ok && out->Ok_0@ == submission_path(
            application_id@,
            ping_name@,
            doc_id@,
        ),
{
    if ping_name.unicode_len() == 0 || doc_id.unicode_len() == 0 {
        return Err(Error::InvalidArgument);
    }
    let mut out = String::from_str("/submit/");
    let app = dasherize(application_id);
    out.append(app.as_str());
    out.append("/");
    out.append(ping_name);
    out.append("/");
    let version = render_decimal(SCHEMA_VERSION);
    out.append(version.as_str());
    out.append("/");
    out.append(doc_id);
    Ok(out)
}

/// Every segment but the application id enters the path unchanged, the
/// application id enters it dasherized, and the schema version is written `1`.
pub proof fn lemma_submission_path(
    application_id: Seq<char>,
    ping_name: Seq<char>,
    doc_id: Seq<char>,
)
    ensures
        submission_path(application_id, ping_name, doc_id) == "/submit/"@ + dasherized(
            application_id,
        ) + "/"@ + ping_name + "/1/"@ + doc_id,
        submission_path(application_id, ping_name, doc_id).len() == 12 + application_id.len()
            + ping_name.len() + doc_id.len(),
{
    reveal_strlit("/submit/");
    reveal_strlit("/");
    reveal_strlit("/1/");
    assert(decimal(1) =~= seq!['1']);
    assert("/"@ + decimal(1) + "/"@ =~= "/1/"@);
    assert(submission_path(application_id, ping_name, doc_id) =~= "/submit/"@ + dasherized(
        application_id,
    ) + "/"@ + ping_name + "/1/"@ + doc_id);
}

} // verus!
