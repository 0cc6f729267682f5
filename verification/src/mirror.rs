//! The mirror side: the requests that create and delete events, and how
//! the mirror's answers are judged.

use crate::codec::as_written;
use crate::codec::comes_back;
use crate::codec::encode;
use crate::codec::encoded;
use crate::record::has_line_break;
use crate::codec::legible;
use crate::codec::refusal;
use crate::codec::surely_written;
use crate::codec::EncodeError;
use crate::event::Event;
use crate::event::EventKey;
use crate::event::EventWithCaldavUid;
use vstd::prelude::*;
use vstd::string::StringExecFns;

verus! {

/// The length of the identifier that a new mirror event is given.
pub const UID_LENGTH: usize = 24;

/// Whether `c` is an ASCII letter or digit.
pub open spec fn is_alphanumeric(c: char) -> bool {
    ||| 'a' <= c <= 'z'
    ||| 'A' <= c <= 'Z'
    ||| '0' <= c <= '9'
}

/// Whether `text` is made of `length` ASCII letters and digits.
pub open spec fn is_token(text: Seq<char>, length: nat) -> bool {
    &&& text.len() == length
    &&& forall|i: int| 0 <= i < text.len() ==> is_alphanumeric(#[trigger] text[i])
}

/// Draws `length` characters from `rand::distributions::Alphanumeric` with
/// the generator of `rand::thread_rng`. Each draw is an ASCII letter or
/// digit; which one is left open.
#[verifier::external_body]
pub(crate) fn random_token(length: usize) -> (token: String)
    ensures
        is_token(token@, length as nat),
{
    let draws = rand::Rng::sample_iter(rand::thread_rng(), &rand::distributions::Alphanumeric);
    draws.take(length).map(char::from).collect()
}

/// A request to the mirror.
#[derive(Clone, Debug)]
pub enum MirrorRequest {
    /// Store `body` at `uri`. With `only_if_absent` the mirror is to refuse
    /// the request where something is stored there already.
    Put { uri: String, body: String, only_if_absent: bool },
    /// Remove what is stored at `uri`.
    Delete { uri: String },
}

/// What a request is in contracts.
pub enum MirrorRequestView {
    Put { uri: Seq<char>, body: Seq<char>, only_if_absent: bool },
    Delete { uri: Seq<char> },
}

impl View for MirrorRequest {
    type V = MirrorRequestView;

    open spec fn view(&self) -> MirrorRequestView {
        match self {
            MirrorRequest::Put { uri, body, only_if_absent } => MirrorRequestView::Put {
                uri: uri@,
                body: body@,
                only_if_absent: *only_if_absent,
            },
            MirrorRequest::Delete { uri } => MirrorRequestView::Delete { uri: uri@ },
        }
    }
}

/// Where the mirror keeps the event with the identifier `uid`.
pub open spec fn event_uri(caldav_url: Seq<char>, uid: Seq<char>) -> Seq<char> {
    caldav_url + uid + ".ics"@
}

fn uri_of(caldav_url: &str, uid: &str) -> (uri: String)
    ensures
        uri@ == event_uri(caldav_url@, uid@),
{
    let mut uri = String::from_str(caldav_url);
    uri.append(uid);
    uri.append(".ics");
    uri
}

/// The request that stores `event` under the identifier `uid`, where
/// nothing is stored under it yet, or why the event cannot be written.
pub open spec fn creation(caldav_url: Seq<char>, event: EventKey, uid: Seq<char>) -> Result<
    MirrorRequestView,
    EncodeError,
> {
    match encoded(event, uid) {
        Ok(body) => Ok(
            MirrorRequestView::Put { uri: event_uri(caldav_url, uid), body, only_if_absent: true },
        ),
        Err(error) => Err(error),
    }
}

/// Whether what the request stores gives `event` back under the identifier
/// `uid` when the mirror is listed.
pub open spec fn gives_back(request: MirrorRequestView, uid: Seq<char>, event: EventKey) -> bool {
    request matches MirrorRequestView::Put { body, .. } && comes_back(body, uid, event)
}

/// The request that stores `event` under the identifier `uid`, where
/// nothing is stored under it yet. Every event whose start and end have a
/// stamp gets its request. Where the record is legible, what the request
/// stores gives the event back as it was written.
pub fn creation_request(caldav_url: &str, event: &Event, uid: &str) -> (request: Result<
    MirrorRequest,
    EncodeError,
>)
    ensures
        match request {
            Ok(r) => creation(caldav_url@, event@, uid@) == Ok::<MirrorRequestView, EncodeError>(
                r@,
            ),
            Err(error) => creation(caldav_url@, event@, uid@) == Err::<
                MirrorRequestView,
                EncodeError,
            >(error),
        },
        surely_written(event@) ==> request is Ok,
        request matches Ok(r) ==> (legible(event@, uid@) ==> gives_back(
            r@,
            uid@,
            as_written(event@),
        )),
{
    let body = encode(event, uid)?;
    Ok(MirrorRequest::Put { uri: uri_of(caldav_url, uid), body, only_if_absent: true })
}

proof fn lemma_token_has_no_line_break(uid: Seq<char>, length: nat)
    requires
        is_token(uid, length),
    ensures
        !has_line_break(uid),
{
    if uid.contains('\n') {
        let i = choose|i: int| 0 <= i < uid.len() && uid[i] == '\n';
        assert(is_alphanumeric(uid[i]));
    }
    if uid.contains('\r') {
        let i = choose|i: int| 0 <= i < uid.len() && uid[i] == '\r';
        assert(is_alphanumeric(uid[i]));
    }
}

/// The request that stores `event` in the mirror under a fresh identifier
/// of `UID_LENGTH` random letters and digits, where nothing is stored
/// under it yet. Every event whose start and end have a stamp gets its
/// request, whatever the identifier; another event is refused with the
/// reason. Where the record is legible, what the request stores gives the
/// event back as it was written.
pub fn create_caldav_event(caldav_url: &str, event: &Event) -> (request: Result<
    MirrorRequest,
    EncodeError,
>)
    ensures
        match request {
            Ok(r) => refusal(event@) is None && exists|uid: Seq<char>|
                is_token(uid, UID_LENGTH as nat) && !has_line_break(uid) && #[trigger] creation(
                    caldav_url@,
                    event@,
                    uid,
                ) == Ok::<MirrorRequestView, EncodeError>(r@) && (legible(event@, uid)
                    ==> gives_back(r@, uid, as_written(event@))),
            Err(error) => refusal(event@) == Some(error),
        },
        surely_written(event@) ==> request is Ok,
{
    let random_uid = random_token(UID_LENGTH);
    proof {
        lemma_token_has_no_line_break(random_uid@, UID_LENGTH as nat);
    }
    creation_request(caldav_url, event, random_uid.as_str())
}

/// The request that removes `caldav_event` from the mirror.
pub fn delete_caldav_event(caldav_url: &str, caldav_event: &EventWithCaldavUid) -> (request:
    MirrorRequest)
    ensures
        request@ == (MirrorRequestView::Delete {
            uri: event_uri(caldav_url@, caldav_event@.caldav_uid),
        }),
{
    MirrorRequest::Delete { uri: uri_of(caldav_url, caldav_event.caldav_uid.as_str()) }
}

/// Why the mirror did not take a request.
#[derive(Clone, Copy, Debug, PartialEq, Eq, Structural)]
pub enum WriteError {
    /// Something is already stored under the fresh identifier. Nothing was
    /// overwritten.
    Collision,
    /// The mirror answered with this status.
    Refused(u16),
}

/// The status with which the mirror refuses to store over something.
pub const PRECONDITION_FAILED: u16 = 412;

/// The status with which the mirror says that nothing is stored.
pub const NOT_FOUND: u16 = 404;

/// Whether a status reports success.
pub open spec fn succeeded(status: u16) -> bool {
    status < 400
}

/// Judges the answer to a request that stores a new event.
pub fn judge_create(status: u16) -> (outcome: Result<(), WriteError>)
    ensures
        outcome == (if succeeded(status) {
            Ok::<(), WriteError>(())
        } else if status == PRECONDITION_FAILED {
            Err::<(), WriteError>(WriteError::Collision)
        } else {
            Err::<(), WriteError>(WriteError::Refused(status))
        }),
{
    if status < 400 {
        Ok(())
    } else if status == PRECONDITION_FAILED {
        Err(WriteError::Collision)
    } else {
        Err(WriteError::Refused(status))
    }
}

/// Judges the answer to a request that removes an event. An event that is
/// no longer there counts as removed.
pub fn judge_delete(status: u16) -> (outcome: Result<(), WriteError>)
    ensures
        outcome == (if succeeded(status) || status == NOT_FOUND {
            Ok::<(), WriteError>(())
        } else {
            Err::<(), WriteError>(WriteError::Refused(status))
        }),
{
    if status < 400 || status == NOT_FOUND {
        Ok(())
    } else {
        Err(WriteError::Refused(status))
    }
}

} // verus!
