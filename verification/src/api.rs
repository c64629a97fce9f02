//! The service's data shapes: responses built from stored records,
//! mailing-list records and their personalization into per-subscriber
//! mail requests, the template listing, and the error envelope.

use vstd::prelude::*;

use crate::scheduler::Mail;
use crate::submit::{SendMailRequest, SubmitError, subject_ok, validate_subject};
use crate::text::{bytes_eq, slice_range};
use crate::time::{rfc3339_of_millis, system_time_to_iso_string};
use crate::value::{DataMap, TemplateValue, Val};

verus! {

/// The broad class of an API failure.
#[derive(Clone, Copy, Debug, PartialEq, Eq, Structural)]
pub enum ApiErrorCode {
    Unknown,
    NotFound,
}

/// The error envelope API handlers answer with.
pub struct ApiError {
    pub status_code: u16,
    pub error_code: ApiErrorCode,
    pub message: Vec<u8>,
    pub details: Vec<(Vec<u8>, Vec<u8>)>,
}

impl ApiError {
    /// An error envelope with the given parts.
    pub fn new(
        status_code: u16,
        error_code: ApiErrorCode,
        message: Vec<u8>,
        details: Vec<(Vec<u8>, Vec<u8>)>,
    ) -> (r: ApiError)
        ensures
            r.status_code == status_code,
            r.error_code == error_code,
            r.message == message,
            r.details == details,
    {
        ApiError { status_code, error_code, message, details }
    }
}

/// The delivery status of a stored mail job, as answered to callers:
/// instants as RFC 3339 text, and a flag for a completed delivery.
pub struct SendMailResponse {
    pub id: i32,
    pub sender: Vec<u8>,
    pub recipient: Vec<u8>,
    pub send_attempts: i32,
    pub priority: i32,
    pub scheduled_at: Vec<u8>,
    pub sent_at: Option<Vec<u8>>,
    pub sent: bool,
}

impl SendMailResponse {
    /// The status of `mail`: its identity and bookkeeping fields, the
    /// instants written as RFC 3339 text, and `sent` exactly when
    /// `sent_at` is set.
    pub fn new(mail: &Mail) -> (r: SendMailResponse)
        ensures
            r.id == mail.id,
            r.sender@ == mail.sender@,
            r.recipient@ == mail.recipient@,
            r.send_attempts == mail.send_attempts,
            r.priority == mail.priority,
            r.scheduled_at@ == rfc3339_of_millis(mail.scheduled_at),
            (match r.sent_at {
                Some(t) => mail.sent_at is Some && t@ == rfc3339_of_millis(mail.sent_at->0),
                None => mail.sent_at is None,
            }),
            r.sent == (mail.sent_at is Some),
    {
        SendMailResponse {
            id: mail.id,
            sender: slice_range(&mail.sender, 0, mail.sender.len()),
            recipient: slice_range(&mail.recipient, 0, mail.recipient.len()),
            send_attempts: mail.send_attempts,
            priority: mail.priority,
            scheduled_at: system_time_to_iso_string(mail.scheduled_at),
            sent_at: match mail.sent_at {
                Some(t) => Some(system_time_to_iso_string(t)),
                None => None,
            },
            sent: mail.sent_at.is_some(),
        }
    }
}

/// A stored mailing list.
pub struct MailingList {
    pub id: i32,
    pub created_at: Option<i64>,
    pub updated_at: Option<i64>,
    pub name: Vec<u8>,
    pub description: Vec<u8>,
}

/// A mailing list as submitted for insertion.
pub struct NewMailingList {
    pub name: Vec<u8>,
    pub description: Vec<u8>,
}

/// A stored subscription of an address to a mailing list.
pub struct MailingListSubscriber {
    pub id: i32,
    pub created_at: Option<i64>,
    pub updated_at: Option<i64>,
    pub email: Vec<u8>,
    pub name: Vec<u8>,
    pub mailing_list_id: i32,
}

/// A subscription as submitted for insertion.
pub struct NewMailingListSubscriber {
    pub email: Vec<u8>,
    pub name: Vec<u8>,
    pub mailing_list_id: i32,
}

/// A mailing list as answered to callers.
pub struct MailingListResponse {
    pub id: i32,
    pub name: Vec<u8>,
    pub description: Vec<u8>,
}

impl MailingListResponse {
    /// The response for a stored mailing list.
    pub fn new(mailing_list: MailingList) -> (r: MailingListResponse)
        ensures
            r.id == mailing_list.id,
            r.name@ == mailing_list.name@,
            r.description@ == mailing_list.description@,
    {
        MailingListResponse {
            id: mailing_list.id,
            name: mailing_list.name,
            description: mailing_list.description,
        }
    }
}

/// A request to create a mailing list.
pub struct CreateMailingListRequest {
    pub name: Vec<u8>,
    pub description: Vec<u8>,
}

/// A request to subscribe an address to a mailing list.
pub struct SubscribeUserRequest {
    pub email: Vec<u8>,
    pub name: Vec<u8>,
}

/// A subscription as answered to callers.
pub struct SubscribeUserResponse {
    pub id: i32,
    pub email: Vec<u8>,
    pub name: Vec<u8>,
    pub mailing_list_id: i32,
}

impl SubscribeUserResponse {
    /// The response for a stored subscription.
    pub fn new(subscriber: MailingListSubscriber) -> (r: SubscribeUserResponse)
        ensures
            r.id == subscriber.id,
            r.email@ == subscriber.email@,
            r.name@ == subscriber.name@,
            r.mailing_list_id == subscriber.mailing_list_id,
    {
        SubscribeUserResponse {
            id: subscriber.id,
            email: subscriber.email,
            name: subscriber.name,
            mailing_list_id: subscriber.mailing_list_id,
        }
    }
}

/// A request to unsubscribe an address from a mailing list.
pub struct UnsubscribeUserRequest {
    pub email: Vec<u8>,
}

/// A request to send one rendered template to every subscriber of a
/// mailing list.
pub struct SendMailsRequest {
    pub sender: Vec<u8>,
    pub subject: Vec<u8>,
    pub template: Vec<u8>,
    pub priority: i32,
    pub data: DataMap,
    pub allow_html: Option<bool>,
    pub minify_html: Option<bool>,
    pub schedule_at: Option<Vec<u8>>,
    pub reply_to: Option<Vec<u8>>,
}

/// The key `subscriber_name`.
pub open spec fn subscriber_name_key() -> Seq<u8> {
    seq![115u8, 117, 98, 115, 99, 114, 105, 98, 101, 114, 95, 110, 97, 109, 101]
}

/// The key `subscriber_email`.
pub open spec fn subscriber_email_key() -> Seq<u8> {
    seq![115u8, 117, 98, 115, 99, 114, 105, 98, 101, 114, 95, 101, 109, 97, 105, 108]
}

/// The key `subscriber_name` as bytes.
fn subscriber_name_key_vec() -> (r: Vec<u8>)
    ensures
        r@ == subscriber_name_key(),
{
    let mut r: Vec<u8> = Vec::new();
    r.push(115);
    r.push(117);
    r.push(98);
    r.push(115);
    r.push(99);
    r.push(114);
    r.push(105);
    r.push(98);
    r.push(101);
    r.push(114);
    r.push(95);
    r.push(110);
    r.push(97);
    r.push(109);
    r.push(101);
    assert(r@ =~= subscriber_name_key());
    r
}

/// The key `subscriber_email` as bytes.
fn subscriber_email_key_vec() -> (r: Vec<u8>)
    ensures
        r@ == subscriber_email_key(),
{
    let mut r: Vec<u8> = Vec::new();
    r.push(115);
    r.push(117);
    r.push(98);
    r.push(115);
    r.push(99);
    r.push(114);
    r.push(105);
    r.push(98);
    r.push(101);
    r.push(114);
    r.push(95);
    r.push(101);
    r.push(109);
    r.push(97);
    r.push(105);
    r.push(108);
    assert(r@ =~= subscriber_email_key());
    r
}

/// The data map a subscriber's mail renders against: the list's data
/// with `subscriber_name` and then `subscriber_email` bound in front,
/// so the subscriber's bindings shadow any of the same name.
pub open spec fn personalized_model(
    data: Seq<(Seq<u8>, Val)>,
    name: Seq<u8>,
    email: Seq<u8>,
) -> Seq<(Seq<u8>, Val)> {
    seq![(subscriber_email_key(), Val::Str(email)), (subscriber_name_key(), Val::Str(name))] + data
}

/// Binds the subscriber's name and address into a copy of the list's
/// data, as `personalized_model` describes.
pub fn personalized_data(data: &DataMap, name: &Vec<u8>, email: &Vec<u8>) -> (r: DataMap)
    ensures
        r.model() == personalized_model(data.model(), name@, email@),
{
    let empty_map = DataMap::new();
    let mut out = data.extended(&empty_map);
    proof {
        assert(data.model() + empty_map.model() =~= data.model());
    }
    out.insert(subscriber_name_key_vec(), TemplateValue::Str(slice_range(name, 0, name.len())));
    out.insert(subscriber_email_key_vec(), TemplateValue::Str(slice_range(email, 0, email.len())));
    proof {
        assert(out.model() =~~= personalized_model(data.model(), name@, email@));
    }
    out
}

/// The per-subscriber requests of a mailing-list send: the shared
/// subject must satisfy the subject rule; each subscriber then gets
/// the shared request addressed to them, rendered against the shared
/// data with their name and address bound in front.
#[verifier::loop_isolation(false)]
pub fn mailing_list_requests(req: &SendMailsRequest, subscribers: &Vec<MailingListSubscriber>) -> (r:
    Result<Vec<SendMailRequest>, SubmitError>)
    ensures
        subject_ok(req.subject@) <==> r is Ok,
        (match r {
            Ok(list) => {
                &&& list@.len() == subscribers@.len()
                &&& forall|i: int|
                    #![all_triggers]
                    0 <= i < list@.len() ==> {
                        &&& list@[i].recipient@ == subscribers@[i].email@
                        &&& list@[i].sender@ == req.sender@
                        &&& list@[i].subject@ == req.subject@
                        &&& list@[i].template@ == req.template@
                        &&& list@[i].priority == req.priority
                        &&& list@[i].data.model() == personalized_model(
                            req.data.model(),
                            subscribers@[i].name@,
                            subscribers@[i].email@,
                        )
                        &&& list@[i].allow_html == req.allow_html
                        &&& list@[i].minify_html == req.minify_html
                        &&& (match list@[i].schedule_at {
                            Some(sa) => req.schedule_at is Some && sa@ == req.schedule_at->0@,
                            None => req.schedule_at is None,
                        })
                        &&& (match list@[i].reply_to {
                            Some(rt) => req.reply_to is Some && rt@ == req.reply_to->0@,
                            None => req.reply_to is None,
                        })
                    }
            },
            Err(e) => e == SubmitError::InvalidSubject,
        }),
{
    if !validate_subject(&req.subject) {
        return Err(SubmitError::InvalidSubject);
    }
    let n: usize = subscribers.len();
    let mut out: Vec<SendMailRequest> = Vec::new();
    let mut i: usize = 0;
    while i < n
        invariant
            0 <= i <= n,
            out@.len() == i,
            forall|k: int|
                #![all_triggers]
                0 <= k < i ==> {
                    &&& out@[k].recipient@ == subscribers@[k].email@
                    &&& out@[k].sender@ == req.sender@
                    &&& out@[k].subject@ == req.subject@
                    &&& out@[k].template@ == req.template@
                    &&& out@[k].priority == req.priority
                    &&& out@[k].data.model() == personalized_model(
                        req.data.model(),
                        subscribers@[k].name@,
                        subscribers@[k].email@,
                    )
                    &&& out@[k].allow_html == req.allow_html
                    &&& out@[k].minify_html == req.minify_html
                    &&& (match out@[k].schedule_at {
                        Some(sa) => req.schedule_at is Some && sa@ == req.schedule_at->0@,
                        None => req.schedule_at is None,
                    })
                    &&& (match out@[k].reply_to {
                        Some(rt) => req.reply_to is Some && rt@ == req.reply_to->0@,
                        None => req.reply_to is None,
                    })
                },
        decreases n - i,
    {
        let s = &subscribers[i];
        let one = SendMailRequest {
            recipient: slice_range(&s.email, 0, s.email.len()),
            sender: slice_range(&req.sender, 0, req.sender.len()),
            subject: slice_range(&req.subject, 0, req.subject.len()),
            template: slice_range(&req.template, 0, req.template.len()),
            priority: req.priority,
            data: personalized_data(&req.data, &s.name, &s.email),
            allow_html: req.allow_html,
            minify_html: req.minify_html,
            schedule_at: match &req.schedule_at {
                Some(sa) => Some(slice_range(sa, 0, sa.len())),
                None => None,
            },
            reply_to: match &req.reply_to {
                Some(rt) => Some(slice_range(rt, 0, rt.len())),
                None => None,
            },
        };
        out.push(one);
        i = i + 1;
    }
    Ok(out)
}

/// A template as listed to callers.
pub struct Template {
    pub name: Vec<u8>,
}

/// A request to render a template outside the submission path.
pub struct RenderTemplateRequest {
    pub data: DataMap,
    pub allow_html: Option<bool>,
    pub minify_html: Option<bool>,
}

/// The file stem of a path: the final path segment without its last
/// extension; a leading dot with no later dot is part of the name.
pub open spec fn file_stem(p: Seq<u8>) -> Seq<u8> {
    let base = match crate::store::last_slash(p, p.len() as int) {
        Some(k) => p.subrange(k + 1, p.len() as int),
        None => p,
    };
    match last_dot_after(base, 1) {
        Some(d) => base.subrange(0, d),
        None => base,
    }
}

/// The position of the last `.` at or after `from`, if any.
pub open spec fn last_dot_after(s: Seq<u8>, from: int) -> Option<int>
    decreases s.len(),
{
    if s.len() <= 0 || s.len() <= from {
        None
    } else if s[s.len() - 1] == 46 && s.len() - 1 >= from {
        Some(s.len() - 1)
    } else {
        last_dot_after(s.drop_last(), from)
    }
}

/// The file stem of a path, as `file_stem` describes.
#[verifier::loop_isolation(false)]
pub fn file_stem_of(p: &Vec<u8>) -> (r: Vec<u8>)
    ensures
        r@ == file_stem(p@),
{
    let n: usize = p.len();
    let mut below: usize = n;
    let mut found: bool = false;
    while !found && below > 0
        invariant
            0 <= below <= n,
            crate::store::last_slash(p@, n as int) == crate::store::last_slash(p@, below as int),
            found ==> below > 0 && p@[below - 1] == 47,
        decreases
            (if found {
                0int
            } else {
                1int
            }),
            below,
    {
        if p[below - 1] == 47 {
            found = true;
        } else {
            below = below - 1;
        }
    }
    let base = slice_range(p, below, n);
    proof {
        assert(base@ =~= (match crate::store::last_slash(p@, p@.len() as int) {
            Some(k) => p@.subrange(k + 1, p@.len() as int),
            None => p@,
        }));
    }
    let m: usize = base.len();
    let mut d: usize = m;
    proof {
        assert(base@.subrange(0, m as int) =~= base@);
    }
    while d > 1
        invariant
            1 <= d <= m || (m <= 1 && d == m),
            last_dot_after(base@, 1) == last_dot_after(base@.subrange(0, d as int), 1),
        decreases d,
    {
        proof {
            assert(base@.subrange(0, d as int).drop_last() =~= base@.subrange(0, d - 1));
        }
        if base[d - 1] == 46 {
            let r = slice_range(&base, 0, d - 1);
            return r;
        }
        d = d - 1;
    }
    proof {
        if m > 1 {
            assert(base@.subrange(0, 1).len() <= 1);
        } else {
            assert(base@.subrange(0, d as int) =~= base@);
        }
    }
    base
}

/// The template listing for a set of template file paths: one entry
/// per path, named by its file stem.
#[verifier::loop_isolation(false)]
pub fn template_names(paths: &Vec<Vec<u8>>) -> (r: Vec<Template>)
    ensures
        r@.len() == paths@.len(),
        forall|i: int|
            #![all_triggers]
            0 <= i < r@.len() ==> r@[i].name@ == file_stem(paths@[i]@),
{
    let n: usize = paths.len();
    let mut out: Vec<Template> = Vec::new();
    let mut i: usize = 0;
    while i < n
        invariant
            0 <= i <= n,
            out@.len() == i,
            forall|k: int| #![all_triggers] 0 <= k < i ==> out@[k].name@ == file_stem(paths@[k]@),
        decreases n - i,
    {
        let name = file_stem_of(&paths[i]);
        out.push(Template { name });
        i = i + 1;
    }
    out
}

/// Whether some element of `s` holds the bytes `x`.
pub open spec fn has_bytes(s: Seq<Vec<u8>>, x: Seq<u8>) -> bool {
    exists|k: int| 0 <= k < s.len() && (#[trigger] s[k])@ == x
}

/// Byte strings with duplicates removed.
pub trait UniqueVec<T> {
    /// What deduplication promises of its result.
    spec fn unique_ok(&self, r: Vec<T>) -> bool;

    /// This collection with duplicates removed.
    fn unique(&self) -> (r: Vec<T>)
        ensures
            self.unique_ok(r),
    ;
}

impl UniqueVec<Vec<u8>> for Vec<Vec<u8>> {
    /// The result holds exactly the distinct byte strings of the
    /// input, each once.
    open spec fn unique_ok(&self, r: Vec<Vec<u8>>) -> bool {
        &&& forall|k: int| 0 <= k < r@.len() ==> has_bytes(self@, (#[trigger] r@[k])@)
        &&& forall|k: int| 0 <= k < self@.len() ==> has_bytes(r@, (#[trigger] self@[k])@)
        &&& forall|a: int, b: int|
            0 <= a < b < r@.len() ==> (#[trigger] r@[a])@ != (#[trigger] r@[b])@
    }

    #[verifier::loop_isolation(false)]
    fn unique(&self) -> (r: Vec<Vec<u8>>) {
        let n: usize = self.len();
        let mut out: Vec<Vec<u8>> = Vec::new();
        let mut i: usize = 0;
        while i < n
            invariant
                0 <= i <= n,
                n == self@.len(),
                forall|k: int| 0 <= k < out@.len() ==> has_bytes(self@, (#[trigger] out@[k])@),
                forall|k: int| 0 <= k < i ==> has_bytes(out@, (#[trigger] self@[k])@),
                forall|a: int, b: int|
                    0 <= a < b < out@.len() ==> (#[trigger] out@[a])@ != (#[trigger] out@[b])@,
            decreases n - i,
        {
            let mut seen: bool = false;
            let m: usize = out.len();
            let mut t: usize = 0;
            while t < m
                invariant
                    0 <= t <= m,
                    m == out@.len(),
                    seen == exists|k: int| 0 <= k < t && (#[trigger] out@[k])@ == self@[i as int]@,
                decreases m - t,
            {
                if bytes_eq(&out[t], &self[i]) {
                    seen = true;
                    t = m;
                } else {
                    t = t + 1;
                }
            }
            let ghost out0 = out@;
            if !seen {
                let c = slice_range(&self[i], 0, self[i].len());
                proof {
                    assert(c@ =~= self@[i as int]@);
                }
                out.push(c);
            }
            proof {
                assert forall|k: int| 0 <= k < out@.len() implies has_bytes(
                    self@,
                    (#[trigger] out@[k])@,
                ) by {
                    if k < out0.len() {
                        assert(has_bytes(self@, (out0[k])@));
                        let w = choose|w: int|
                            0 <= w < self@.len() && (#[trigger] self@[w])@ == (out0[k])@;
                        assert((self@[w])@ == (out@[k])@);
                    } else {
                        assert((self@[i as int])@ == (out@[k])@);
                    }
                }
                assert forall|k: int| 0 <= k < i + 1 implies has_bytes(
                    out@,
                    (#[trigger] self@[k])@,
                ) by {
                    if k < i {
                        let w = choose|w: int|
                            0 <= w < out0.len() && (#[trigger] out0[w])@ == (self@[k])@;
                        assert((out@[w])@ == (self@[k])@);
                    } else {
                        if seen {
                            let w = choose|w: int|
                                0 <= w < out0.len() && (#[trigger] out0[w])@ == self@[i as int]@;
                            assert((out@[w])@ == (self@[k])@);
                        } else {
                            assert((out@[out@.len() - 1])@ == (self@[k])@);
                        }
                    }
                }
                assert forall|a: int, b: int| 0 <= a < b < out@.len() implies (#[trigger] out@[a])@
                    != (#[trigger] out@[b])@ by {
                    if b < out0.len() {
                        assert((out0[a])@ != (out0[b])@);
                    } else {
                        assert(!seen);
                        assert(!(exists|k: int|
                            0 <= k < out0.len() && (#[trigger] out0[k])@ == self@[i as int]@));
                        assert((out0[a])@ != self@[i as int]@);
                        assert((out@[b])@ == self@[i as int]@);
                    }
                }
            }
            i = i + 1;
        }
        out
    }
}

} // verus!
