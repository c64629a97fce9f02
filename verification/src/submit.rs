//! The submission path: validate a mail request, render both bodies and
//! the subject, parse the schedule, and build the job record that the
//! application persists. Rendering failures abort the call before
//! anything is built, so a job is never partially prepared.

use vstd::prelude::*;

use crate::render::{
    RenderError, apply_placeholders, apply_placeholders_spec, entries_wf, render, render_plain_spec,
    render_plain_text, render_spec,
};
use crate::store::TemplateStore;
use crate::text::{char_count, slice_range, trimmed};
use crate::time::{iso_string_to_system_time, rfc3339_millis};
use crate::value::DataMap;

verus! {

/// A mail job as submitted for insertion: everything but the generated
/// identity and the delivery bookkeeping the scheduler owns.
#[derive(Debug)]
pub struct NewMail {
    pub sender: Vec<u8>,
    pub recipient: Vec<u8>,
    pub subject: Vec<u8>,
    pub html_body: Vec<u8>,
    pub text_body: Vec<u8>,
    pub send_attempts: i32,
    pub priority: i32,
    /// Epoch milliseconds.
    pub scheduled_at: i64,
    pub reply_to: Option<Vec<u8>>,
}

/// One inbound mail request.
#[derive(Debug)]
pub struct SendMailRequest {
    pub recipient: Vec<u8>,
    pub sender: Vec<u8>,
    pub subject: Vec<u8>,
    pub template: Vec<u8>,
    pub priority: i32,
    pub data: DataMap,
    pub allow_html: Option<bool>,
    pub minify_html: Option<bool>,
    /// An RFC 3339 instant; the submission time when absent.
    pub schedule_at: Option<Vec<u8>>,
    pub reply_to: Option<Vec<u8>>,
}

/// Why a submission was rejected.
#[derive(Clone, Copy, Debug, PartialEq, Eq, Structural)]
pub enum SubmitError {
    /// The template body did not resolve or render.
    Template(RenderError),
    /// `schedule_at` is not a valid RFC 3339 instant.
    InvalidSchedule,
    /// The subject has fewer than six characters once trimmed.
    InvalidSubject,
    /// The subject's own placeholders do not compile.
    SubjectCompile,
}

/// The subject rule: at least six characters once surrounding
/// whitespace is trimmed.
pub open spec fn subject_ok(s: Seq<u8>) -> bool {
    char_count(trimmed(s)) >= 6
}

/// Checks a subject, as `subject_ok` describes.
pub fn validate_subject(subject: &Vec<u8>) -> (r: bool)
    ensures
        r == subject_ok(subject@),
{
    let t = crate::text::trim(subject);
    crate::text::count_chars(&t) >= 6
}

/// An option with its default applied.
pub open spec fn opt_or(o: Option<bool>, d: bool) -> bool {
    match o {
        Some(b) => b,
        None => d,
    }
}

/// The instant a request is scheduled for: its parsed `schedule_at`,
/// or the submission time when none was given.
pub open spec fn scheduled_instant(schedule_at: Option<Vec<u8>>, now: i64) -> Option<i64> {
    match schedule_at {
        Some(sa) => rfc3339_millis(sa@),
        None => Some(now),
    }
}

/// Builds the job a request stands for, at submission time `now`:
/// render the HTML body (raw HTML off and minification on unless the
/// request says otherwise), render the plain-text counterpart with a
/// missing file standing for an empty text part, parse the schedule,
/// enforce the subject rule, and substitute placeholders into the
/// subject with raw HTML allowed, so that ordinary punctuation is not
/// escaped. The job starts with zero send attempts.
pub fn prepare_mail(store: &TemplateStore, req: &SendMailRequest, now: i64) -> (r: Result<
    NewMail,
    SubmitError,
>)
    ensures
        ({
            let allow = opt_or(req.allow_html, false);
            let minify = opt_or(req.minify_html, true);
            let html_r = render_spec(
                store.files_model(),
                store.globals.model(),
                req.template@,
                req.data.model(),
                allow,
                minify,
            );
            let text_r = render_plain_spec(
                store.files_model(),
                store.globals.model(),
                req.template@,
                req.data.model(),
            );
            let sched = scheduled_instant(req.schedule_at, now);
            let subj_r = apply_placeholders_spec(req.subject@, req.data.model(), true);
            let wf = entries_wf(req.data.model() + store.globals.model());
            match r {
                Err(e) => {
                    ||| (html_r is Err && e == SubmitError::Template(html_r->Err_0))
                    ||| (html_r is Ok && sched is None && e == SubmitError::InvalidSchedule)
                    ||| (html_r is Ok && sched is Some && !subject_ok(req.subject@) && e
                        == SubmitError::InvalidSubject)
                    ||| (html_r is Ok && sched is Some && subject_ok(req.subject@) && subj_r is Err
                        && e == SubmitError::SubjectCompile)
                },
                Ok(nm) => {
                    &&& html_r is Ok
                    &&& sched is Some
                    &&& subject_ok(req.subject@)
                    &&& subj_r is Ok
                    &&& nm.sender@ == req.sender@
                    &&& nm.recipient@ == req.recipient@
                    &&& nm.send_attempts == 0
                    &&& nm.priority == req.priority
                    &&& nm.scheduled_at == sched->Some_0
                    &&& (match nm.reply_to {
                        Some(rt) => req.reply_to is Some && rt@ == req.reply_to->Some_0@,
                        None => req.reply_to is None,
                    })
                    &&& ((allow || wf) ==> nm.html_body@ == html_r->Ok_0)
                    &&& (match text_r {
                        Ok(t) => wf ==> nm.text_body@ == t,
                        Err(_) => nm.text_body@ == Seq::<u8>::empty(),
                    })
                    &&& (entries_wf(req.data.model()) ==> nm.subject@ == subj_r->Ok_0)
                },
            }
        }),
{
    let allow_html = match req.allow_html {
        Some(b) => b,
        None => false,
    };
    let minify = match req.minify_html {
        Some(b) => b,
        None => true,
    };
    let html_body = match render(store, &req.template, &req.data, allow_html, minify) {
        Ok(h) => h,
        Err(e) => {
            return Err(SubmitError::Template(e));
        },
    };
    let text_body = match render_plain_text(store, &req.template, &req.data) {
        Ok(t) => t,
        Err(_) => Vec::new(),
    };
    let scheduled_at: i64 = match &req.schedule_at {
        Some(sa) => match iso_string_to_system_time(sa) {
            Some(t) => t,
            None => {
                return Err(SubmitError::InvalidSchedule);
            },
        },
        None => now,
    };
    if !validate_subject(&req.subject) {
        return Err(SubmitError::InvalidSubject);
    }
    let subject = match apply_placeholders(&req.subject, &req.data, true) {
        Ok(s) => s,
        Err(_) => {
            return Err(SubmitError::SubjectCompile);
        },
    };
    Ok(
        NewMail {
            sender: slice_range(&req.sender, 0, req.sender.len()),
            recipient: slice_range(&req.recipient, 0, req.recipient.len()),
            subject,
            html_body,
            text_body,
            send_attempts: 0,
            priority: req.priority,
            scheduled_at,
            reply_to: match &req.reply_to {
                Some(rt) => Some(slice_range(rt, 0, rt.len())),
                None => None,
            },
        },
    )
}

} // verus!
