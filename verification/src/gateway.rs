//! Requests of the resource protocol as they travel in message subjects:
//! reading a resource, appending to a collection, replacing a value, removing
//! a member, and asking for access.

use vstd::prelude::*;
use decscloud_common::gateway;
use crate::error::RadarError;
use crate::text::{chars_of, ends_with, starts_with};

verus! {

/// What a subject asks for, and of which resource.
#[derive(Clone, Debug, PartialEq)]
pub enum ResProtocolRequest {
    /// Read the resource.
    Get(String),
    /// Append a member to the collection; its id is assigned on the way.
    New(String),
    /// Replace the value of the resource.
    SetValue(String),
    /// Remove one member, named in the payload, from the collection.
    Delete(String),
    /// Say what the caller may do with the resource.
    Access(String),
}

/// What a `ResProtocolRequest` is, as plain values.
pub enum RequestView {
    Get(Seq<char>),
    New(Seq<char>),
    SetValue(Seq<char>),
    Delete(Seq<char>),
    Access(Seq<char>),
}

impl View for ResProtocolRequest {
    type V = RequestView;

    open spec fn view(&self) -> RequestView {
        match self {
            ResProtocolRequest::Get(rid) => RequestView::Get(rid@),
            ResProtocolRequest::New(rid) => RequestView::New(rid@),
            ResProtocolRequest::SetValue(rid) => RequestView::SetValue(rid@),
            ResProtocolRequest::Delete(rid) => RequestView::Delete(rid@),
            ResProtocolRequest::Access(rid) => RequestView::Access(rid@),
        }
    }
}

/// The subject that carries a request.
pub open spec fn subject_of(request: RequestView) -> Seq<char> {
    match request {
        RequestView::Get(rid) => "get."@ + rid,
        RequestView::New(rid) => "call."@ + rid + ".new"@,
        RequestView::SetValue(rid) => "call."@ + rid + ".set"@,
        RequestView::Delete(rid) => "call."@ + rid + ".delete"@,
        RequestView::Access(rid) => "access."@ + rid,
    }
}

/// The request that a subject carries, if it has one of the five shapes. The
/// resource id is what stands behind `get.` or `access.`, or between `call.`
/// and the verb; it may be empty. Nothing else is a request.
pub open spec fn request_of(subject: Seq<char>) -> Option<RequestView> {
    let n = subject.len() as int;
    if "get."@.is_prefix_of(subject) {
        Some(RequestView::Get(subject.skip(4)))
    } else if "call."@.is_prefix_of(subject) && ".new"@.is_suffix_of(subject) && n >= 9 {
        Some(RequestView::New(subject.subrange(5, n - 4)))
    } else if "call."@.is_prefix_of(subject) && ".set"@.is_suffix_of(subject) && n >= 9 {
        Some(RequestView::SetValue(subject.subrange(5, n - 4)))
    } else if "access."@.is_prefix_of(subject) {
        Some(RequestView::Access(subject.skip(7)))
    } else if "call."@.is_prefix_of(subject) && ".delete"@.is_suffix_of(subject) && n >= 12 {
        Some(RequestView::Delete(subject.subrange(5, n - 7)))
    } else {
        None
    }
}

/// `to_string` of the gateway crate's `ResProtocolRequest`. The crate writes
/// `get.` or `access.` before the resource id, or puts the id between
/// `call.` and `.new`, `.set` or `.delete`.
#[verifier::external_body]
fn rendered(request: &ResProtocolRequest) -> (subject: String)
    ensures
        subject@ == subject_of(request@),
{
    let outside = match request {
        ResProtocolRequest::Get(rid) => gateway::ResProtocolRequest::Get(rid.clone()),
        ResProtocolRequest::New(rid) => gateway::ResProtocolRequest::New(rid.clone()),
        ResProtocolRequest::SetValue(rid) => gateway::ResProtocolRequest::Set(rid.clone()),
        ResProtocolRequest::Delete(rid) => gateway::ResProtocolRequest::Delete(rid.clone()),
        ResProtocolRequest::Access(rid) => gateway::ResProtocolRequest::Access(rid.clone()),
    };
    outside.to_string()
}

/// `from(&str)` of the gateway crate's `ResProtocolRequest`, on subjects of
/// one of the five shapes only. There the crate cuts the resource id out from
/// behind `get.` or `access.`, or from between `call.` and the verb, and
/// returns it in the matching variant. On other subjects the crate may
/// panic or guess, so they are kept away from it.
#[verifier::external_body]
fn recognized(subject: &str) -> (r: Option<ResProtocolRequest>)
    requires
        request_of(subject@) is Some,
    ensures
        r is Some,
        request_of(subject@) == Some(r->0@),
{
    match gateway::ResProtocolRequest::from(subject) {
        gateway::ResProtocolRequest::Get(rid) => Some(ResProtocolRequest::Get(rid)),
        gateway::ResProtocolRequest::New(rid) => Some(ResProtocolRequest::New(rid)),
        gateway::ResProtocolRequest::Set(rid) => Some(ResProtocolRequest::SetValue(rid)),
        gateway::ResProtocolRequest::Delete(rid) => Some(ResProtocolRequest::Delete(rid)),
        gateway::ResProtocolRequest::Access(rid) => Some(ResProtocolRequest::Access(rid)),
        gateway::ResProtocolRequest::Call(_, _) => None,
        gateway::ResProtocolRequest::Unknown => None,
    }
}

impl ResProtocolRequest {
    /// The subject on which to publish this request.
    pub fn to_string(&self) -> (subject: String)
        ensures
            subject@ == subject_of(self@),
    {
        rendered(self)
    }

    /// Reads a subject. A subject that has none of the five shapes is
    /// rejected; nothing is guessed.
    pub fn parse(subject: &str) -> (r: Result<ResProtocolRequest, RadarError>)
        ensures
            match r {
                Ok(q) => request_of(subject@) == Some(q@),
                Err(e) => request_of(subject@) is None && e == RadarError::MalformedSubject,
            },
    {
        if Self::has_shape(subject) {
            match recognized(subject) {
                Some(q) => Ok(q),
                None => Err(RadarError::MalformedSubject),
            }
        } else {
            Err(RadarError::MalformedSubject)
        }
    }

    /// Whether a subject has one of the five shapes.
    pub fn has_shape(subject: &str) -> (r: bool)
        ensures
            r == request_of(subject@).is_some(),
    {
        let s = chars_of(subject);
        let n = s.len();
        let call = starts_with(&s, "call.");
        starts_with(&s, "get.") || (call && n >= 9 && (ends_with(&s, ".new") || ends_with(
            &s,
            ".set",
        ))) || starts_with(&s, "access.") || (call && n >= 12 && ends_with(&s, ".delete"))
    }
}

/// Every request survives the trip through its subject.
pub proof fn lemma_request_round_trip(request: RequestView)
    ensures
        request_of(subject_of(request)) == Some(request),
{
    reveal_strlit("get.");
    reveal_strlit("call.");
    reveal_strlit("access.");
    reveal_strlit(".new");
    reveal_strlit(".set");
    reveal_strlit(".delete");
    let s = subject_of(request);
    let n = s.len() as int;
    match request {
        RequestView::Get(rid) => {
            assert("get."@ =~= s.subrange(0, 4));
            assert(s.skip(4) =~= rid);
        },
        RequestView::New(rid) => {
            assert(s[0] == 'c');
            assert(!"get."@.is_prefix_of(s)) by {
                if "get."@.is_prefix_of(s) {
                    assert(s.subrange(0, 4)[0] == 'g');
                }
            }
            assert("call."@ =~= s.subrange(0, 5));
            assert(".new"@ =~= s.subrange(n - 4, n));
            assert(s.subrange(5, n - 4) =~= rid);
        },
        RequestView::SetValue(rid) => {
            assert(s[0] == 'c');
            assert(!"get."@.is_prefix_of(s)) by {
                if "get."@.is_prefix_of(s) {
                    assert(s.subrange(0, 4)[0] == 'g');
                }
            }
            assert("call."@ =~= s.subrange(0, 5));
            assert(".set"@ =~= s.subrange(n - 4, n));
            assert(!".new"@.is_suffix_of(s)) by {
                if ".new"@.is_suffix_of(s) {
                    assert(s.subrange(n - 4, n)[1] == 'n');
                    assert(s[n - 3] == 's');
                }
            }
            assert(s.subrange(5, n - 4) =~= rid);
        },
        RequestView::Delete(rid) => {
            assert(s[0] == 'c');
            assert(!"get."@.is_prefix_of(s)) by {
                if "get."@.is_prefix_of(s) {
                    assert(s.subrange(0, 4)[0] == 'g');
                }
            }
            assert(!"access."@.is_prefix_of(s)) by {
                if "access."@.is_prefix_of(s) {
                    assert(s.subrange(0, 7)[0] == 'a');
                }
            }
            assert("call."@ =~= s.subrange(0, 5));
            assert(".delete"@ =~= s.subrange(n - 7, n));
            assert(s[n - 1] == 'e');
            assert(!".new"@.is_suffix_of(s)) by {
                if ".new"@.is_suffix_of(s) {
                    assert(s.subrange(n - 4, n)[3] == 'w');
                }
            }
            assert(!".set"@.is_suffix_of(s)) by {
                if ".set"@.is_suffix_of(s) {
                    assert(s.subrange(n - 4, n)[3] == 't');
                }
            }
            assert(s.subrange(5, n - 7) =~= rid);
        },
        RequestView::Access(rid) => {
            assert(s[0] == 'a');
            assert(!"get."@.is_prefix_of(s)) by {
                if "get."@.is_prefix_of(s) {
                    assert(s.subrange(0, 4)[0] == 'g');
                }
            }
            assert(!"call."@.is_prefix_of(s)) by {
                if "call."@.is_prefix_of(s) {
                    assert(s.subrange(0, 5)[0] == 'c');
                }
            }
            assert("access."@ =~= s.subrange(0, 7));
            assert(s.skip(7) =~= rid);
        },
    }
}

/// A subject that reads as a request is exactly the subject of that request.
pub proof fn lemma_subject_round_trip(subject: Seq<char>)
    requires
        request_of(subject) is Some,
    ensures
        subject_of(request_of(subject)->0) == subject,
{
    reveal_strlit("get.");
    reveal_strlit("call.");
    reveal_strlit("access.");
    reveal_strlit(".new");
    reveal_strlit(".set");
    reveal_strlit(".delete");
    let n = subject.len() as int;
    match request_of(subject)->0 {
        RequestView::Get(rid) => {
            assert(subject =~= subject.subrange(0, 4) + subject.skip(4));
        },
        RequestView::New(rid) => {
            assert(subject =~= subject.subrange(0, 5) + subject.subrange(5, n - 4)
                + subject.subrange(n - 4, n));
        },
        RequestView::SetValue(rid) => {
            assert(subject =~= subject.subrange(0, 5) + subject.subrange(5, n - 4)
                + subject.subrange(n - 4, n));
        },
        RequestView::Delete(rid) => {
            assert(subject =~= subject.subrange(0, 5) + subject.subrange(5, n - 7)
                + subject.subrange(n - 7, n));
        },
        RequestView::Access(rid) => {
            assert(subject =~= subject.subrange(0, 7) + subject.skip(7));
        },
    }
}

} // verus!
