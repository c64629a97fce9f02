//! The delivery scheduler's decisions: which mail jobs a tick selects,
//! in what order they are sent, and how a job's delivery state changes
//! on success or failure. The surrounding application loads jobs from
//! storage, drives the SMTP transport, and writes the updates back.
//!
//! A job is eligible for a tick exactly when it has never been sent,
//! its scheduled time lies strictly before the tick's clock, and its
//! attempt count is below the configured maximum. Selected jobs are
//! ordered by priority descending, then scheduled time ascending, then
//! attempt count ascending.

use vstd::prelude::*;

use vstd::multiset::Multiset;

use crate::text::{parse_u16, parse_u64, parsed_u64, slice_range};

verus! {

/// One persisted mail job.
pub struct Mail {
    pub id: i32,
    pub sender: Vec<u8>,
    pub recipient: Vec<u8>,
    pub subject: Vec<u8>,
    pub html_body: Vec<u8>,
    pub text_body: Vec<u8>,
    pub send_attempts: i32,
    pub priority: i32,
    /// Set exactly once, on the first successful delivery; epoch
    /// milliseconds.
    pub sent_at: Option<i64>,
    /// The earliest eligible send time; epoch milliseconds.
    pub scheduled_at: i64,
    pub reply_to: Option<Vec<u8>>,
}

/// The model of a mail job.
#[verifier::ext_equal]
pub struct MailModel {
    pub id: int,
    pub sender: Seq<u8>,
    pub recipient: Seq<u8>,
    pub subject: Seq<u8>,
    pub html_body: Seq<u8>,
    pub text_body: Seq<u8>,
    pub send_attempts: int,
    pub priority: int,
    pub sent_at: Option<int>,
    pub scheduled_at: int,
    pub reply_to: Option<Seq<u8>>,
}

impl Mail {
    /// The job this record stands for.
    pub open spec fn deep_view(self) -> MailModel {
        MailModel {
            id: self.id as int,
            sender: self.sender@,
            recipient: self.recipient@,
            subject: self.subject@,
            html_body: self.html_body@,
            text_body: self.text_body@,
            send_attempts: self.send_attempts as int,
            priority: self.priority as int,
            sent_at: match self.sent_at {
                Some(t) => Some(t as int),
                None => None,
            },
            scheduled_at: self.scheduled_at as int,
            reply_to: match self.reply_to {
                Some(r) => Some(r@),
                None => None,
            },
        }
    }
}

/// The job list a vector of jobs stands for.
pub open spec fn mails_view(s: Seq<Mail>) -> Seq<MailModel> {
    Seq::new(
        s.len(),
        |i: int|
            if 0 <= i < s.len() {
                s[i].deep_view()
            } else {
                s[0].deep_view()
            },
    )
}

/// Whether a tick at time `now` may select the job: never sent, due,
/// and not out of attempts.
pub open spec fn eligible(m: MailModel, now: int, max_attempts: int) -> bool {
    &&& m.sent_at is None
    &&& m.scheduled_at < now
    &&& m.send_attempts < max_attempts
}

/// The send order: higher priority first; among equal priorities the
/// earlier scheduled time; among those the fewer attempts.
pub open spec fn send_order_le(a: MailModel, b: MailModel) -> bool {
    ||| a.priority > b.priority
    ||| (a.priority == b.priority && a.scheduled_at < b.scheduled_at)
    ||| (a.priority == b.priority && a.scheduled_at == b.scheduled_at && a.send_attempts
        <= b.send_attempts)
}

/// Whether the jobs stand in send order.
pub open spec fn sorted_for_send(s: Seq<MailModel>) -> bool {
    forall|i: int, j: int| 0 <= i < j < s.len() ==> send_order_le(#[trigger] s[i], #[trigger] s[j])
}

/// The eligible jobs of `s`, in their original order.
pub open spec fn eligible_filter(s: Seq<MailModel>, now: int, max_attempts: int) -> Seq<MailModel> {
    s.filter(|m: MailModel| eligible(m, now, max_attempts))
}

/// A copy of the job, standing for the same record.
pub fn dup_mail(m: &Mail) -> (r: Mail)
    ensures
        r.deep_view() == m.deep_view(),
{
    let r = Mail {
        id: m.id,
        sender: slice_range(&m.sender, 0, m.sender.len()),
        recipient: slice_range(&m.recipient, 0, m.recipient.len()),
        subject: slice_range(&m.subject, 0, m.subject.len()),
        html_body: slice_range(&m.html_body, 0, m.html_body.len()),
        text_body: slice_range(&m.text_body, 0, m.text_body.len()),
        send_attempts: m.send_attempts,
        priority: m.priority,
        sent_at: match m.sent_at {
            Some(t) => Some(t),
            None => None,
        },
        scheduled_at: m.scheduled_at,
        reply_to: match &m.reply_to {
            Some(rt) => Some(slice_range(rt, 0, rt.len())),
            None => None,
        },
    };
    proof {
        assert(r.deep_view() =~= m.deep_view());
    }
    r
}

/// Whether the job may be selected, as `eligible` describes.
pub fn is_eligible(m: &Mail, now: i64, max_attempts: i32) -> (r: bool)
    ensures
        r == eligible(m.deep_view(), now as int, max_attempts as int),
{
    m.sent_at.is_none() && m.scheduled_at < now && m.send_attempts < max_attempts
}

/// Whether `a` comes no later than `b` in the send order.
pub fn order_le(a: &Mail, b: &Mail) -> (r: bool)
    ensures
        r == send_order_le(a.deep_view(), b.deep_view()),
{
    if a.priority != b.priority {
        a.priority > b.priority
    } else if a.scheduled_at != b.scheduled_at {
        a.scheduled_at < b.scheduled_at
    } else {
        a.send_attempts <= b.send_attempts
    }
}

/// The jobs a tick at time `now` sends, in order: exactly the eligible
/// jobs, sorted by priority descending, scheduled time ascending,
/// attempt count ascending.
#[verifier::loop_isolation(false)]
pub fn fetch_mails(jobs: &Vec<Mail>, now: i64, max_attempts: i32) -> (r: Vec<Mail>)
    ensures
        mails_view(r@).to_multiset() == eligible_filter(
            mails_view(jobs@),
            now as int,
            max_attempts as int,
        ).to_multiset(),
        sorted_for_send(mails_view(r@)),
        forall|i: int|
            0 <= i < r@.len() ==> eligible(
                #[trigger] mails_view(r@)[i],
                now as int,
                max_attempts as int,
            ),
{
    broadcast use vstd::seq_lib::group_filter_ensures;
    broadcast use vstd::seq_lib::group_to_multiset_ensures;

    let ghost jv = mails_view(jobs@);
    let ghost pred = |m: MailModel| eligible(m, now as int, max_attempts as int);
    let n: usize = jobs.len();
    let mut rem: Vec<Mail> = Vec::new();
    let mut i: usize = 0;
    proof {
        reveal(Seq::filter);
    }
    while i < n
        invariant
            0 <= i <= n,
            mails_view(rem@) == jv.take(i as int).filter(pred),
        decreases n - i,
    {
        let ghost before = mails_view(rem@);
        if is_eligible(&jobs[i], now, max_attempts) {
            let c = dup_mail(&jobs[i]);
            rem.push(c);
            proof {
                assert(mails_view(rem@) =~= before.push(jv[i as int]));
            }
        }
        proof {
            reveal(Seq::filter);
            assert(jv.take(i + 1).drop_last() =~= jv.take(i as int));
            assert(jv.take(i + 1).last() == jv[i as int]);
            assert(mails_view(rem@) =~= jv.take(i + 1).filter(pred));
        }
        i = i + 1;
    }
    proof {
        assert(jv.take(n as int) =~= jv);
        assert(pred =~= (|m: MailModel| eligible(m, now as int, max_attempts as int)));
        assert(eligible_filter(jv, now as int, max_attempts as int) == jv.filter(pred));
    }
    let ghost selected = mails_view(rem@);
    let mut out: Vec<Mail> = Vec::new();
    while rem.len() > 0
        invariant
            mails_view(out@).to_multiset().add(mails_view(rem@).to_multiset())
                =~= selected.to_multiset(),
            sorted_for_send(mails_view(out@)),
            forall|a: int, b: int|
                0 <= a < out@.len() && 0 <= b < rem@.len() ==> send_order_le(
                    #[trigger] mails_view(out@)[a],
                    #[trigger] mails_view(rem@)[b],
                ),
            forall|a: int|
                0 <= a < out@.len() ==> eligible(
                    #[trigger] mails_view(out@)[a],
                    now as int,
                    max_attempts as int,
                ),
            forall|b: int|
                0 <= b < rem@.len() ==> eligible(
                    #[trigger] mails_view(rem@)[b],
                    now as int,
                    max_attempts as int,
                ),
        decreases rem@.len(),
    {
        let m: usize = rem.len();
        let mut best: usize = 0;
        let mut t: usize = 1;
        while t < m
            invariant
                1 <= t <= m,
                0 <= best < t,
                forall|k: int|
                    0 <= k < t ==> send_order_le(
                        mails_view(rem@)[best as int],
                        #[trigger] mails_view(rem@)[k],
                    ),
            decreases m - t,
        {
            if !order_le(&rem[best], &rem[t]) {
                proof {
                    assert(send_order_le(mails_view(rem@)[t as int], mails_view(rem@)[best as int]));
                    assert forall|k: int| 0 <= k < t + 1 implies send_order_le(
                        mails_view(rem@)[t as int],
                        #[trigger] mails_view(rem@)[k],
                    ) by {
                        assert(send_order_le(mails_view(rem@)[best as int], mails_view(rem@)[k])
                            || k == t);
                    }
                }
                best = t;
            }
            t = t + 1;
        }
        let ghost rv = mails_view(rem@);
        let ghost ov = mails_view(out@);
        let picked = rem.remove(best);
        out.push(picked);
        proof {
            assert(mails_view(rem@) =~= rv.remove(best as int));
            assert(mails_view(out@) =~= ov.push(rv[best as int]));
            assert(mails_view(out@).to_multiset().add(mails_view(rem@).to_multiset())
                =~= selected.to_multiset()) by {
                assert(rv.remove(best as int).to_multiset() =~= rv.to_multiset().remove(
                    rv[best as int],
                ));
                assert(ov.push(rv[best as int]).to_multiset() =~= ov.to_multiset().insert(
                    rv[best as int],
                ));
            }
            assert forall|a: int, b: int|
                0 <= a < mails_view(out@).len() && 0 <= b < mails_view(rem@).len() implies
                send_order_le(
                    #[trigger] mails_view(out@)[a],
                    #[trigger] mails_view(rem@)[b],
                ) by {
                let rb = rv.remove(best as int)[b];
                assert(rb == if b < best {
                    rv[b]
                } else {
                    rv[b + 1]
                });
            }
        }
    }
    proof {
        assert(mails_view(rem@).to_multiset() =~= Multiset::<MailModel>::empty());
        assert(mails_view(out@).to_multiset().add(Multiset::<MailModel>::empty())
            =~= mails_view(out@).to_multiset());
    }
    out
}

/// Records the first successful delivery: `sent_at` is set to `now`
/// and nothing else changes. It is only ever set once.
pub fn mark_sent(m: &mut Mail, now: i64)
    requires
        old(m).deep_view().sent_at is None,
    ensures
        final(m).deep_view() == (MailModel {
            sent_at: Some(now as int),
            ..old(m).deep_view()
        }),
{
    m.sent_at = Some(now);
    proof {
        assert(m.deep_view() =~= (MailModel { sent_at: Some(now as int), ..old(m).deep_view() }));
    }
}

/// Records a failed delivery: the attempt count grows by one and
/// nothing else changes.
pub fn record_failed_attempt(m: &mut Mail)
    requires
        old(m).send_attempts < i32::MAX,
    ensures
        final(m).deep_view() == (MailModel {
            send_attempts: old(m).deep_view().send_attempts + 1,
            ..old(m).deep_view()
        }),
{
    m.send_attempts = m.send_attempts + 1;
    proof {
        assert(m.deep_view() =~= (MailModel {
            send_attempts: old(m).deep_view().send_attempts + 1,
            ..old(m).deep_view()
        }));
    }
}

/// The reply-to address of the envelope: the job's own when set, else
/// the sender.
pub fn effective_reply_to(m: &Mail) -> (r: Vec<u8>)
    ensures
        r@ == (match m.deep_view().reply_to {
            Some(rt) => rt,
            None => m.deep_view().sender,
        }),
{
    match &m.reply_to {
        Some(rt) => slice_range(rt, 0, rt.len()),
        None => slice_range(&m.sender, 0, m.sender.len()),
    }
}

/// A job whose attempt count has reached the configured maximum is
/// never selected again, whatever its scheduled time or the clock.
pub proof fn lemma_retry_exhaustion(m: MailModel, now: int, max_attempts: int)
    requires
        m.send_attempts >= max_attempts,
    ensures
        !eligible(m, now, max_attempts),
{
}

/// Once `sent_at` is set, no later tick selects the job, even if its
/// row is read again unchanged.
pub proof fn lemma_sent_is_final(m: MailModel, now: int, max_attempts: int)
    requires
        m.sent_at is Some,
    ensures
        !eligible(m, now, max_attempts),
{
}

/// The value of an optional byte string, for contracts over settings.
pub open spec fn opt_bytes(o: Option<Vec<u8>>) -> Option<Seq<u8>> {
    match o {
        Some(v) => Some(v@),
        None => None,
    }
}

/// The configuration-lookup policy: a set, non-empty value wins over
/// the fallback; an unset or empty value yields the fallback.
pub fn get_var(value: Option<Vec<u8>>, fallback: Option<Vec<u8>>) -> (r: Option<Vec<u8>>)
    ensures
        opt_bytes(r) == (match value {
            Some(v) => if v@.len() > 0 {
                Some(v@)
            } else {
                opt_bytes(fallback)
            },
            None => opt_bytes(fallback),
        }),
{
    match value {
        Some(v) => if v.len() > 0 {
            Some(v)
        } else {
            fallback
        },
        None => fallback,
    }
}

/// How the scheduler reaches the SMTP relay on a send attempt.
#[derive(Debug, PartialEq, Eq)]
pub enum TransportPlan {
    /// Connect to the named relay host with the given credentials.
    AuthenticatedRelay { host: Vec<u8>, username: Vec<u8>, password: Vec<u8> },
    /// Connect to a local, unauthenticated relay.
    Local { host: Vec<u8>, port: u16 },
}

/// Missing SMTP credentials with no usable fallback.
#[derive(Clone, Copy, Debug, PartialEq, Eq, Structural)]
pub struct ConfigError;

/// The SMTP settings as read from the environment; `None` stands for
/// an unset or empty variable.
pub struct SmtpConfig {
    pub username: Option<Vec<u8>>,
    pub password: Option<Vec<u8>>,
    pub relay: Option<Vec<u8>>,
    pub transport_domain: Option<Vec<u8>>,
    pub transport_port: Option<Vec<u8>>,
}

/// The default local relay host, `mailhog`.
pub open spec fn default_local_host() -> Seq<u8> {
    seq![109u8, 97, 105, 108, 104, 111, 103]
}

/// The local relay host a configuration names: the configured domain,
/// or the default.
pub open spec fn local_host_of(c: SmtpConfig) -> Seq<u8> {
    match c.transport_domain {
        Some(d) => d@,
        None => default_local_host(),
    }
}

/// The local relay port a configuration names: the configured value
/// when it parses as a port number, else 1025.
pub open spec fn local_port_of(c: SmtpConfig) -> u16 {
    match c.transport_port {
        Some(p) => match parsed_u64(p@) {
            Some(v) => if v <= u16::MAX as u64 {
                v as u16
            } else {
                1025
            },
            None => 1025,
        },
        None => 1025,
    }
}

/// Picks the transport for a send attempt: with credentials and a
/// configured relay, the authenticated relay; with credentials and no
/// relay, the local fallback; without credentials, a configuration
/// error that surfaces as a failed attempt.
pub fn get_smtp_transport(c: SmtpConfig) -> (r: Result<TransportPlan, ConfigError>)
    ensures
        ({
            match (c.username, c.password) {
                (Some(u), Some(p)) => match c.relay {
                    Some(h) => r matches Ok(TransportPlan::AuthenticatedRelay {
                        host,
                        username,
                        password,
                    }) && host@ == h@ && username@ == u@ && password@ == p@,
                    None => r matches Ok(TransportPlan::Local { host, port }) && host@
                        == local_host_of(c) && port == local_port_of(c),
                },
                _ => r == Err::<TransportPlan, ConfigError>(ConfigError),
            }
        }),
{
    let SmtpConfig { username, password, relay, transport_domain, transport_port } = c;
    let u = match username {
        Some(u) => u,
        None => {
            return Err(ConfigError);
        },
    };
    let p = match password {
        Some(p) => p,
        None => {
            return Err(ConfigError);
        },
    };
    match relay {
        Some(h) => Ok(TransportPlan::AuthenticatedRelay { host: h, username: u, password: p }),
        None => {
            let host = match transport_domain {
                Some(d) => d,
                None => {
                    let mut v: Vec<u8> = Vec::new();
                    v.push(109);
                    v.push(97);
                    v.push(105);
                    v.push(108);
                    v.push(104);
                    v.push(111);
                    v.push(103);
                    assert(v@ =~= default_local_host());
                    v
                },
            };
            let port: u16 = match transport_port {
                Some(ps) => match parse_u16(&ps) {
                    Some(v) => v,
                    None => 1025,
                },
                None => 1025,
            };
            Ok(TransportPlan::Local { host, port })
        },
    }
}

/// The scheduler's tick interval in seconds: the configured value when
/// it parses as a number, else 15.
pub fn scheduler_interval(value: Option<Vec<u8>>) -> (r: u64)
    ensures
        r == (match value {
            Some(v) => if v@.len() > 0 {
                match parsed_u64(v@) {
                    Some(n) => n,
                    None => 15u64,
                }
            } else {
                15u64
            },
            None => 15u64,
        }),
{
    match value {
        Some(v) => if v.len() > 0 {
            match parse_u64(&v) {
                Some(n) => n,
                None => 15,
            }
        } else {
            15
        },
        None => 15,
    }
}

/// The retry budget: the configured value when it parses as a
/// non-negative count that fits the field, else 10.
pub fn max_send_attempts(value: Option<Vec<u8>>) -> (r: i32)
    ensures
        r == (match value {
            Some(v) => if v@.len() > 0 {
                match parsed_u64(v@) {
                    Some(n) => if n <= i32::MAX as u64 {
                        n as i32
                    } else {
                        10i32
                    },
                    None => 10i32,
                }
            } else {
                10i32
            },
            None => 10i32,
        }),
{
    match value {
        Some(v) => if v.len() > 0 {
            match parse_u64(&v) {
                Some(n) => if n <= 2147483647 {
                    n as i32
                } else {
                    10
                },
                None => 10,
            }
        } else {
            10
        },
        None => 10,
    }
}

} // verus!
