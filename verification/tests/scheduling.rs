//! Tests of the delivery scheduler: selection, ordering, retry and
//! delivery bookkeeping, and the transport configuration policy.

use meel::scheduler::{
    ConfigError, Mail, SmtpConfig, TransportPlan, effective_reply_to, fetch_mails, get_var,
    is_eligible, mark_sent, max_send_attempts, record_failed_attempt, scheduler_interval,
    get_smtp_transport,
};

fn b(s: &str) -> Vec<u8> {
    s.as_bytes().to_vec()
}

fn job(id: i32, priority: i32, attempts: i32, scheduled_at: i64, sent_at: Option<i64>) -> Mail {
    Mail {
        id,
        sender: b("from@example.org"),
        recipient: b("to@example.org"),
        subject: b("a subject"),
        html_body: b("<p>hi</p>"),
        text_body: b("hi"),
        send_attempts: attempts,
        priority,
        sent_at,
        scheduled_at,
        reply_to: None,
    }
}

#[test]
fn selection_orders_by_priority_then_schedule_then_attempts() {
    let jobs = vec![
        job(1, 5, 0, 0, None),
        job(2, 5, 2, 0, None),
        job(3, 9, 0, 0, None),
    ];
    let picked = fetch_mails(&jobs, 100, 10);
    let ids: Vec<i32> = picked.iter().map(|m| m.id).collect();
    assert_eq!(ids, vec![3, 1, 2]);
}

#[test]
fn earlier_schedule_wins_among_equal_priorities() {
    let jobs = vec![job(1, 5, 0, 50, None), job(2, 5, 0, 10, None)];
    let picked = fetch_mails(&jobs, 100, 10);
    let ids: Vec<i32> = picked.iter().map(|m| m.id).collect();
    assert_eq!(ids, vec![2, 1]);
}

#[test]
fn exhausted_jobs_are_never_selected() {
    let jobs = vec![job(1, 5, 10, 0, None), job(2, 5, 9, 0, None)];
    let picked = fetch_mails(&jobs, 1_000_000, 10);
    let ids: Vec<i32> = picked.iter().map(|m| m.id).collect();
    assert_eq!(ids, vec![2]);
    assert!(!is_eligible(&jobs[0], i64::MAX, 10));
}

#[test]
fn sent_jobs_are_never_selected_again() {
    let jobs = vec![job(1, 5, 0, 0, Some(40)), job(2, 5, 0, 0, None)];
    let picked = fetch_mails(&jobs, 100, 10);
    let ids: Vec<i32> = picked.iter().map(|m| m.id).collect();
    assert_eq!(ids, vec![2]);
    assert!(!is_eligible(&jobs[0], i64::MAX, i32::MAX));
}

#[test]
fn jobs_become_due_only_after_their_schedule() {
    let jobs = vec![job(1, 5, 0, 100, None)];
    assert_eq!(fetch_mails(&jobs, 100, 10).len(), 0);
    assert_eq!(fetch_mails(&jobs, 101, 10).len(), 1);
}

#[test]
fn delivery_marks_are_recorded() {
    let mut m = job(7, 1, 3, 0, None);
    record_failed_attempt(&mut m);
    assert_eq!(m.send_attempts, 4);
    assert_eq!(m.sent_at, None);
    mark_sent(&mut m, 555);
    assert_eq!(m.sent_at, Some(555));
    assert_eq!(m.send_attempts, 4);
    assert_eq!(m.id, 7);
}

#[test]
fn reply_to_falls_back_to_sender() {
    let mut m = job(1, 1, 0, 0, None);
    assert_eq!(effective_reply_to(&m), b("from@example.org"));
    m.reply_to = Some(b("replies@example.org"));
    assert_eq!(effective_reply_to(&m), b("replies@example.org"));
}

#[test]
fn missing_credentials_are_a_config_error() {
    let cfg = SmtpConfig {
        username: None,
        password: Some(b("SECRET-REDACTED")),
        relay: Some(b("smtp.example.org")),
        transport_domain: None,
        transport_port: None,
    };
    assert_eq!(get_smtp_transport(cfg), Err(ConfigError));
    let cfg2 = SmtpConfig {
        username: Some(b("user")),
        password: None,
        relay: None,
        transport_domain: None,
        transport_port: None,
    };
    assert_eq!(get_smtp_transport(cfg2), Err(ConfigError));
}

#[test]
fn configured_relay_is_used_with_credentials() {
    let cfg = SmtpConfig {
        username: Some(b("user")),
        password: Some(b("SECRET-REDACTED")),
        relay: Some(b("smtp.example.org")),
        transport_domain: None,
        transport_port: None,
    };
    match get_smtp_transport(cfg) {
        Ok(TransportPlan::AuthenticatedRelay { host, username, password }) => {
            assert_eq!(host, b("smtp.example.org"));
            assert_eq!(username, b("user"));
            assert_eq!(password, b("SECRET-REDACTED"));
        }
        other => panic!("unexpected plan: {:?}", other.is_ok()),
    }
}

#[test]
fn local_fallback_uses_defaults() {
    let cfg = SmtpConfig {
        username: Some(b("user")),
        password: Some(b("SECRET-REDACTED")),
        relay: None,
        transport_domain: None,
        transport_port: None,
    };
    match get_smtp_transport(cfg) {
        Ok(TransportPlan::Local { host, port }) => {
            assert_eq!(host, b("mailhog"));
            assert_eq!(port, 1025);
        }
        _ => panic!("expected the local fallback"),
    }
    let cfg2 = SmtpConfig {
        username: Some(b("user")),
        password: Some(b("SECRET-REDACTED")),
        relay: None,
        transport_domain: Some(b("smtp.local")),
        transport_port: Some(b("2525")),
    };
    match get_smtp_transport(cfg2) {
        Ok(TransportPlan::Local { host, port }) => {
            assert_eq!(host, b("smtp.local"));
            assert_eq!(port, 2525);
        }
        _ => panic!("expected the configured local relay"),
    }
    let cfg3 = SmtpConfig {
        username: Some(b("user")),
        password: Some(b("SECRET-REDACTED")),
        relay: None,
        transport_domain: None,
        transport_port: Some(b("not-a-port")),
    };
    match get_smtp_transport(cfg3) {
        Ok(TransportPlan::Local { port, .. }) => assert_eq!(port, 1025),
        _ => panic!("expected the local fallback"),
    }
}

#[test]
fn get_var_prefers_set_nonempty_values() {
    assert_eq!(get_var(Some(b("value")), Some(b("fb"))), Some(b("value")));
    assert_eq!(get_var(Some(b("")), Some(b("fb"))), Some(b("fb")));
    assert_eq!(get_var(None, Some(b("fb"))), Some(b("fb")));
    assert_eq!(get_var(None, None), None);
}

#[test]
fn intervals_and_budgets_parse_with_defaults() {
    assert_eq!(scheduler_interval(None), 15);
    assert_eq!(scheduler_interval(Some(b("30"))), 30);
    assert_eq!(scheduler_interval(Some(b("soon"))), 15);
    assert_eq!(max_send_attempts(None), 10);
    assert_eq!(max_send_attempts(Some(b("3"))), 3);
    assert_eq!(max_send_attempts(Some(b("99999999999999999999"))), 10);
}
