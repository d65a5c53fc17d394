//! The serialized form of an experiment record: a JSON object with the field
//! `branch` and, where the record has extra data, the field `extra`.

use vstd::prelude::*;
use vstd::string::*;
use crate::experiments::{pairs_view, ExperimentView, ExtraView, RecordedExperimentData};

verus! {

/// The JSON text of the string `s`: `s` between double quotes, with the
/// characters that JSON reserves escaped.
pub uninterp spec fn json_string(s: Seq<char>) -> Seq<char>;

/// Writes `s` as a JSON string.
///
/// Trusted: the body builds a `serde_json::Value::String` and formats it with
/// the `Display` impl of `serde_json::Value`. The contract claims only that
/// the text is a function of the characters of `s`, named `json_string`.
#[verifier::external_body]
fn quote(s: &str) -> (out: String)
    ensures
        out@ == json_string(s@),
{
    serde_json::Value::String(s.to_string()).to_string()
}

/// One member of a JSON object, from the texts of its name and its value.
pub open spec fn framed_member(member: (Seq<char>, Seq<char>)) -> Seq<char> {
    member.0 + ":"@ + member.1
}

/// The members of a JSON object, separated by commas, from the texts of
/// their names and values.
pub open spec fn framed_members(members: ExtraView) -> Seq<char>
    decreases members.len(),
{
    if members.len() == 0 {
        Seq::empty()
    } else if members.len() == 1 {
        framed_member(members[0])
    } else {
        framed_members(members.drop_last()) + ","@ + framed_member(members.last())
    }
}

/// The JSON object of an experiment record, from the text of its branch
/// and the texts of the keys and values of its extra data.
pub open spec fn framed_record(branch: Seq<char>, extra: Option<ExtraView>) -> Seq<char> {
    match extra {
        Some(members) => "{\"branch\":"@ + branch + ",\"extra\":{"@ + framed_members(members)
            + "}}"@,
        None => "{\"branch\":"@ + branch + "}"@,
    }
}

/// The keys and values of `extra`, each as a JSON string.
pub open spec fn quoted_extra(extra: ExtraView) -> ExtraView {
    Seq::new(extra.len(), |i: int| (json_string(extra[i].0), json_string(extra[i].1)))
}

/// The serialized form of `record`.
pub open spec fn serialized_record(record: ExperimentView) -> Seq<char> {
    framed_record(
        json_string(record.branch),
        match record.extra {
            Some(extra) => Some(quoted_extra(extra)),
            None => None,
        },
    )
}

/// Joins the texts of an object's members: each name, a colon and the value,
/// with commas between the members.
pub fn frame_members(members: &Vec<(String, String)>) -> (out: String)
    ensures
        out@ == framed_members(pairs_view(members@)),
{
    let ghost all = pairs_view(members@);
    let mut out = String::new();
    let mut i: usize = 0;
    assert(all.subrange(0, 0) =~= Seq::empty());
    while i < members.len()
        invariant
            i <= members.len(),
            all == pairs_view(members@),
            out@ == framed_members(all.subrange(0, i as int)),
        decreases members.len() - i,
    {
        let ghost done = all.subrange(0, i as int);
        let ghost next = all.subrange(0, i + 1);
        proof {
            assert(next.drop_last() =~= done);
            assert(next.last() == all[i as int]);
        }
        if i > 0 {
            out.append(",");
        }
        out.append(members[i].0.as_str());
        out.append(":");
        out.append(members[i].1.as_str());
        proof {
            if i == 0 {
                assert(next[0] == all[0]);
                assert(out@ =~= framed_member(all[0]));
            } else {
                assert(out@ =~= framed_members(done) + ","@ + framed_member(all[i as int]));
            }
        }
        i = i + 1;
    }
    assert(all.subrange(0, members.len() as int) =~= all);
    out
}

/// Writes the JSON object of an experiment record from the text of its
/// branch and, where it has extra data, the texts of the keys and values.
pub fn frame_record(branch: &str, extra: Option<&Vec<(String, String)>>) -> (out: String)
    ensures
        out@ == framed_record(
            branch@,
            match extra {
                Some(members) => Some(pairs_view(members@)),
                None => None,
            },
        ),
{
    let mut out = String::from_str("{\"branch\":");
    out.append(branch);
    match extra {
        Some(members) => {
            out.append(",\"extra\":{");
            let inner = frame_members(members);
            out.append(inner.as_str());
            out.append("}}");
        },
        None => {
            out.append("}");
        },
    }
    out
}

/// The keys and values of `extra`, each written as a JSON string.
fn quote_extra(extra: &Vec<(String, String)>) -> (out: Vec<(String, String)>)
    ensures
        pairs_view(out@) == quoted_extra(pairs_view(extra@)),
{
    let mut out: Vec<(String, String)> = Vec::new();
    let mut i: usize = 0;
    while i < extra.len()
        invariant
            i <= extra.len(),
            out.len() == i,
            forall|j: int|
                0 <= j < i ==> (#[trigger] out[j]).0@ == json_string(extra[j].0@) && out[j].1@
                    == json_string(extra[j].1@),
        decreases extra.len() - i,
    {
        let key = quote(extra[i].0.as_str());
        let value = quote(extra[i].1.as_str());
        out.push((key, value));
        i = i + 1;
    }
    assert(pairs_view(out@) =~= quoted_extra(pairs_view(extra@)));
    out
}

/// Serializes `record` as a JSON object: `{"branch":..}`, or
/// `{"branch":..,"extra":{..}}` where the record has extra data, with the
/// entries of the extra data in their stored order.
pub fn serialize_record(record: &RecordedExperimentData) -> (out: String)
    ensures
        out@ == serialized_record(record@),
{
    let branch = quote(record.branch());
    match record.extra() {
        Some(extra) => {
            let members = quote_extra(extra);
            frame_record(branch.as_str(), Some(&members))
        },
        None => frame_record(branch.as_str(), None),
    }
}

} // verus!
