//! Tests of the submission path: subject validation, schedule parsing,
//! job preparation, mailing-list personalization, responses, and the
//! time and text helpers.

use meel::api::{
    ApiError, ApiErrorCode, MailingList, MailingListResponse, MailingListSubscriber,
    SendMailResponse, SendMailsRequest, SubscribeUserResponse, Template, UniqueVec,
    mailing_list_requests, personalized_data, template_names,
};
use meel::render::{RenderError, apply_placeholders};
use meel::scheduler::Mail;
use meel::store::TemplateStore;
use meel::submit::{NewMail, SendMailRequest, SubmitError, prepare_mail, validate_subject};
use meel::text::{parse_u16, parse_u64, trim};
use meel::time::{iso_string_to_system_time, system_time_to_iso_string};
use meel::value::{DataMap, TemplateValue};

fn b(s: &str) -> Vec<u8> {
    s.as_bytes().to_vec()
}

fn request(store_subject: &str, schedule_at: Option<Vec<u8>>) -> SendMailRequest {
    let mut data = DataMap::new();
    data.insert(b("name"), TemplateValue::Str(b("Ann")));
    SendMailRequest {
        recipient: b("to@example.org"),
        sender: b("from@example.org"),
        subject: b(store_subject),
        template: b("t"),
        priority: 3,
        data,
        allow_html: None,
        minify_html: Some(false),
        schedule_at,
        reply_to: None,
    }
}

fn store() -> TemplateStore {
    let mut s = TemplateStore::new();
    s.add_file(b("t.meel"), b("Hi {{ name }}"));
    s.add_file(b("t.txt"), b("Text {{ name }}"));
    s
}

#[test]
fn five_trimmed_characters_are_rejected_six_accepted() {
    assert!(!validate_subject(&b("  abc12  ")));
    assert!(validate_subject(&b("  abc123  ")));
    assert!(!validate_subject(&b("")));
    let err = prepare_mail(&store(), &request("12345", None), 7).unwrap_err();
    assert_eq!(err, SubmitError::InvalidSubject);
    assert!(prepare_mail(&store(), &request("123456", None), 7).is_ok());
}

#[test]
fn preparation_renders_both_bodies_and_the_subject() {
    let nm: NewMail = prepare_mail(
        &store(),
        &request("Welcome {{ name }}!", Some(b("2024-01-01T00:00:00Z"))),
        7,
    )
    .unwrap();
    assert_eq!(nm.html_body, b("Hi Ann"));
    assert_eq!(nm.text_body, b("Text Ann"));
    assert_eq!(nm.subject, b("Welcome Ann!"));
    assert_eq!(nm.scheduled_at, 1_704_067_200_000);
    assert_eq!(nm.send_attempts, 0);
    assert_eq!(nm.priority, 3);
    assert_eq!(nm.sender, b("from@example.org"));
    assert_eq!(nm.recipient, b("to@example.org"));
    assert_eq!(nm.reply_to, None);
}

#[test]
fn missing_schedule_defaults_to_submission_time() {
    let nm = prepare_mail(&store(), &request("123456", None), 4242).unwrap();
    assert_eq!(nm.scheduled_at, 4242);
}

#[test]
fn bad_schedule_is_rejected() {
    let err = prepare_mail(&store(), &request("123456", Some(b("not-a-date"))), 7).unwrap_err();
    assert_eq!(err, SubmitError::InvalidSchedule);
}

#[test]
fn missing_template_fails_the_submission() {
    let mut req = request("123456", None);
    req.template = b("missing");
    let err = prepare_mail(&store(), &req, 7).unwrap_err();
    assert_eq!(err, SubmitError::Template(RenderError::NotFound));
}

#[test]
fn malformed_subject_placeholders_are_rejected() {
    let err = prepare_mail(&store(), &request("123456 {{", None), 7).unwrap_err();
    assert_eq!(err, SubmitError::SubjectCompile);
}

#[test]
fn missing_plain_text_part_becomes_empty() {
    let mut s = TemplateStore::new();
    s.add_file(b("t.meel"), b("Hi {{ name }}"));
    let nm = prepare_mail(&s, &request("123456", None), 7).unwrap();
    assert_eq!(nm.text_body, b(""));
}

#[test]
fn subjects_are_rendered_without_escaping() {
    let nm = prepare_mail(&store(), &request("Hello {{ name }} & co!", None), 7).unwrap();
    assert_eq!(nm.subject, b("Hello Ann & co!"));
}

#[test]
fn mailing_list_sends_personalize_each_subscriber() {
    let mut data = DataMap::new();
    data.insert(b("item"), TemplateValue::Str(b("news")));
    let req = SendMailsRequest {
        sender: b("list@example.org"),
        subject: b("the weekly letter"),
        template: b("letter"),
        priority: 1,
        data,
        allow_html: None,
        minify_html: None,
        schedule_at: None,
        reply_to: None,
    };
    let subscribers = vec![
        MailingListSubscriber {
            id: 1,
            created_at: None,
            updated_at: None,
            email: b("a@example.org"),
            name: b("Ann"),
            mailing_list_id: 9,
        },
        MailingListSubscriber {
            id: 2,
            created_at: None,
            updated_at: None,
            email: b("bo@example.org"),
            name: b("Bo"),
            mailing_list_id: 9,
        },
    ];
    let reqs = mailing_list_requests(&req, &subscribers).unwrap();
    assert_eq!(reqs.len(), 2);
    assert_eq!(reqs[0].recipient, b("a@example.org"));
    assert_eq!(reqs[1].recipient, b("bo@example.org"));
    let rendered = apply_placeholders(
        &b("{{ subscriber_name }} <{{ subscriber_email }}> {{ item }}"),
        &reqs[1].data,
        true,
    )
    .unwrap();
    assert_eq!(rendered, b("Bo <bo@example.org> news"));
}

#[test]
fn mailing_list_sends_enforce_the_subject_rule() {
    let req = SendMailsRequest {
        sender: b("list@example.org"),
        subject: b("short"),
        template: b("letter"),
        priority: 1,
        data: DataMap::new(),
        allow_html: None,
        minify_html: None,
        schedule_at: None,
        reply_to: None,
    };
    assert_eq!(
        mailing_list_requests(&req, &Vec::new()).unwrap_err(),
        SubmitError::InvalidSubject
    );
}

#[test]
fn personalization_shadows_shared_keys() {
    let mut data = DataMap::new();
    data.insert(b("subscriber_name"), TemplateValue::Str(b("placeholder")));
    let p = personalized_data(&data, &b("Ann"), &b("a@example.org"));
    let rendered = apply_placeholders(&b("{{ subscriber_name }}"), &p, true).unwrap();
    assert_eq!(rendered, b("Ann"));
}

#[test]
fn responses_carry_the_delivery_state() {
    let mail = Mail {
        id: 12,
        sender: b("from@example.org"),
        recipient: b("to@example.org"),
        subject: b("a subject"),
        html_body: b("<p>hi</p>"),
        text_body: b("hi"),
        send_attempts: 2,
        priority: 5,
        sent_at: Some(0),
        scheduled_at: 1000,
        reply_to: None,
    };
    let r = SendMailResponse::new(&mail);
    assert_eq!(r.id, 12);
    assert_eq!(r.send_attempts, 2);
    assert_eq!(r.priority, 5);
    assert!(r.sent);
    assert_eq!(r.scheduled_at, b("1970-01-01T00:00:01+00:00"));
    assert_eq!(r.sent_at, Some(b("1970-01-01T00:00:00+00:00")));
    let unsent = Mail { sent_at: None, ..mail };
    let r2 = SendMailResponse::new(&unsent);
    assert!(!r2.sent);
    assert_eq!(r2.sent_at, None);
}

#[test]
fn instants_round_trip_through_rfc3339() {
    assert_eq!(
        iso_string_to_system_time(&b("2024-01-01T00:00:00Z")),
        Some(1_704_067_200_000)
    );
    assert_eq!(iso_string_to_system_time(&b("not-a-date")), None);
    let t: i64 = 1_704_067_200_000;
    let text = system_time_to_iso_string(t);
    assert_eq!(iso_string_to_system_time(&text), Some(t));
}

#[test]
fn mailing_list_responses_copy_fields() {
    let list = MailingList {
        id: 3,
        created_at: None,
        updated_at: None,
        name: b("news"),
        description: b("weekly news"),
    };
    let r = MailingListResponse::new(list);
    assert_eq!(r.id, 3);
    assert_eq!(r.name, b("news"));
    assert_eq!(r.description, b("weekly news"));
    let sub = MailingListSubscriber {
        id: 8,
        created_at: None,
        updated_at: None,
        email: b("a@example.org"),
        name: b("Ann"),
        mailing_list_id: 3,
    };
    let sr = SubscribeUserResponse::new(sub);
    assert_eq!(sr.id, 8);
    assert_eq!(sr.mailing_list_id, 3);
    assert_eq!(sr.email, b("a@example.org"));
    assert_eq!(sr.name, b("Ann"));
}

#[test]
fn api_errors_carry_their_parts() {
    let e = ApiError::new(404, ApiErrorCode::NotFound, b("missing"), Vec::new());
    assert_eq!(e.status_code, 404);
    assert_eq!(e.error_code, ApiErrorCode::NotFound);
    assert_eq!(e.message, b("missing"));
    assert!(e.details.is_empty());
}

#[test]
fn template_listing_uses_file_stems() {
    let paths = vec![b("data/templates/welcome.meel"), b("x.meel"), b("noext")];
    let names: Vec<Template> = template_names(&paths);
    assert_eq!(names[0].name, b("welcome"));
    assert_eq!(names[1].name, b("x"));
    assert_eq!(names[2].name, b("noext"));
}

#[test]
fn unique_drops_duplicate_strings() {
    let v: Vec<Vec<u8>> = vec![b("a"), b("b"), b("a")];
    let u = v.unique();
    assert_eq!(u, vec![b("a"), b("b")]);
}

#[test]
fn text_helpers_parse_and_trim() {
    assert_eq!(trim(&b("  spaced\t")), b("spaced"));
    assert_eq!(parse_u64(&b("42")), Some(42));
    assert_eq!(parse_u64(&b("+42")), Some(42));
    assert_eq!(parse_u64(&b("18446744073709551616")), None);
    assert_eq!(parse_u64(&b("4x")), None);
    assert_eq!(parse_u64(&b("")), None);
    assert_eq!(parse_u16(&b("65535")), Some(65535));
    assert_eq!(parse_u16(&b("65536")), None);
}
