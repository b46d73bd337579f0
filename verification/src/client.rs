//! The notification dispatcher: assembles the JSON body, target URL and
//! headers of one email or SMS notification request, with a fresh bearer
//! token derived from the client's API key.
//!
//! The dispatcher builds everything the transport needs and hands it back
//! as a [`PreparedRequest`]; issuing the HTTP POST and returning the raw
//! transport response is the integrating application's part.

use crate::auth::{create_jwt, token_of, NotifyError};
use crate::json::{escaped, member_bytes, members_bytes, push_members, JsonValue, Member};
use vstd::prelude::*;
use vstd::string::StringExecFns;

verus! {

broadcast use vstd::seq::group_seq_axioms;

/// A client configured with an API key and a base endpoint.
pub struct NotifyClient {
    pub notify_server: String,
    pub api_key: String,
}

/// The two notification variants.
#[derive(Clone, Copy)]
pub enum NotificationType {
    EMAIL,
    SMS,
}

/// The target path of a variant.
pub open spec fn path_of(t: NotificationType) -> Seq<char> {
    match t {
        NotificationType::EMAIL => "/v2/notifications/email"@,
        NotificationType::SMS => "/v2/notifications/sms"@,
    }
}

/// Everything of one outbound request except the transport itself.
pub struct PreparedRequest {
    /// The base endpoint followed by the variant's path.
    pub url: String,
    /// `Bearer ` followed by a fresh signed token.
    pub authorization: String,
    /// The client identifier sent as `User-Agent`.
    pub user_agent: String,
    /// Always `application/json`.
    pub content_type: String,
    /// The serialized JSON body.
    pub body: Vec<u8>,
}

/// The serialization of a string-valued object member.
pub open spec fn str_member(key: Seq<char>, value: Seq<char>) -> Seq<u8> {
    seq![34u8] + escaped(key) + seq![34u8, 58u8, 34u8] + escaped(value) + seq![34u8]
}

/// The serialization of an object-valued object member.
pub open spec fn obj_member(key: Seq<char>, ms: Seq<Member>) -> Seq<u8> {
    seq![34u8] + escaped(key) + seq![34u8, 58u8, 123u8] + members_bytes(ms) + seq![125u8]
}

/// The views of an optional personalisation mapping.
pub open spec fn opt_members_view(o: Option<Vec<Member>>) -> Option<Seq<Member>> {
    match o {
        Some(p) => Some(p@),
        None => None,
    }
}

/// The view of an optional string field.
pub open spec fn opt_str_view(o: Option<String>) -> Option<Seq<char>> {
    match o {
        Some(s) => Some(s@),
        None => None,
    }
}

/// The optional part of a body: each member appears, after a comma, if
/// and only if the caller supplied the field; an absent field leaves no
/// trace in the body.
pub open spec fn body_tail(
    personalisation: Option<Seq<Member>>,
    reference: Option<Seq<char>>,
    sms_sender_id: Option<Seq<char>>,
) -> Seq<u8> {
    (match personalisation {
        Some(p) => seq![44u8] + obj_member("personalisation"@, p),
        None => Seq::empty(),
    }) + (match reference {
        Some(r) => seq![44u8] + str_member("reference"@, r),
        None => Seq::empty(),
    }) + (match sms_sender_id {
        Some(s) => seq![44u8] + str_member("sms_sender_id"@, s),
        None => Seq::empty(),
    })
}

/// The exact body of an email notification: the two required keys, then
/// only the optional fields that were supplied.
pub open spec fn email_body_bytes(
    email_address: Seq<char>,
    template_id: Seq<char>,
    personalisation: Option<Seq<Member>>,
    reference: Option<Seq<char>>,
) -> Seq<u8> {
    seq![123u8] + str_member("email_address"@, email_address) + seq![44u8] + str_member(
        "template_id"@,
        template_id,
    ) + body_tail(personalisation, reference, None) + seq![125u8]
}

/// The exact body of an SMS notification.
pub open spec fn sms_body_bytes(
    phone_number: Seq<char>,
    template_id: Seq<char>,
    personalisation: Option<Seq<Member>>,
    reference: Option<Seq<char>>,
    sms_sender_id: Option<Seq<char>>,
) -> Seq<u8> {
    seq![123u8] + str_member("phone_number"@, phone_number) + seq![44u8] + str_member(
        "template_id"@,
        template_id,
    ) + body_tail(personalisation, reference, sms_sender_id) + seq![125u8]
}

/// A prepared request carries the variant's URL, the constant headers, a
/// fresh token for the client's key, and the given body bytes.
pub open spec fn prepared_ok(
    client: NotifyClient,
    t: NotificationType,
    p: PreparedRequest,
    body: Seq<u8>,
) -> bool {
    &&& p.url@ == client.notify_server@ + path_of(t)
    &&& (exists|iat: i64|
        0 <= iat && p.authorization@ == "Bearer "@ + token_of(client.api_key@, iat))
    &&& p.user_agent@ == "rust-client-pre-alpha"@
    &&& p.content_type@ == "application/json"@
    &&& p.body@ == body
}

impl NotifyClient {
    /// A client for the given API key, aimed at the given base endpoint,
    /// or at the production endpoint when none is given.
    pub fn new(api_key: String, notify_server: Option<String>) -> (r: NotifyClient)
        ensures
            r.api_key == api_key,
            notify_server matches Some(s) ==> r.notify_server == s,
            notify_server is None ==> r.notify_server@
                == "https://api.notifications.service.gov.uk"@,
    {
        let notify_server = match notify_server {
            Some(s) => s,
            None => "https://api.notifications.service.gov.uk".to_owned(),
        };
        NotifyClient { notify_server, api_key }
    }

    /// Prepares an email notification request: body keys `email_address`
    /// and `template_id`, and exactly the optional fields supplied.
    /// Fails with `InvalidApiKey`, before anything else is assembled, if
    /// and only if the key is shorter than 73 characters.
    pub fn send_email(
        &self,
        email_address: String,
        template_id: String,
        personalisation: Option<Vec<Member>>,
        reference: Option<String>,
    ) -> (r: Result<PreparedRequest, NotifyError>)
        ensures
            self.api_key@.len() >= 73 ==> (r matches Ok(p) && prepared_ok(
                *self,
                NotificationType::EMAIL,
                p,
                email_body_bytes(
                    email_address@,
                    template_id@,
                    opt_members_view(personalisation),
                    opt_str_view(reference),
                ),
            )),
            self.api_key@.len() < 73 ==> (r matches Err(e) && e == NotifyError::InvalidApiKey),
    {
        let ghost gp = opt_members_view(personalisation);
        let ghost gr = opt_str_view(reference);
        let mut body: Vec<Member> = Vec::new();
        body.push(Member { key: "email_address".to_owned(), value: JsonValue::Str(email_address) });
        body.push(Member { key: "template_id".to_owned(), value: JsonValue::Str(template_id) });
        proof {
            lemma_two_members(body@);
            assert(members_bytes(body@) =~= str_member("email_address"@, email_address@) + seq![
                44u8,
            ] + str_member("template_id"@, template_id@));
        }
        let r = self.send_notification(NotificationType::EMAIL, body, personalisation, reference, None);
        proof {
            if self.api_key@.len() >= 73 {
                assert(r matches Ok(p) ==> p.body@ =~= email_body_bytes(
                    email_address@,
                    template_id@,
                    gp,
                    gr,
                ));
            }
        }
        r
    }

    /// Prepares an SMS notification request: body keys `phone_number`
    /// and `template_id`, and exactly the optional fields supplied.
    /// Fails with `InvalidApiKey`, before anything else is assembled, if
    /// and only if the key is shorter than 73 characters.
    pub fn send_sms(
        &self,
        phone_number: String,
        template_id: String,
        personalisation: Option<Vec<Member>>,
        reference: Option<String>,
        sms_sender_id: Option<String>,
    ) -> (r: Result<PreparedRequest, NotifyError>)
        ensures
            self.api_key@.len() >= 73 ==> (r matches Ok(p) && prepared_ok(
                *self,
                NotificationType::SMS,
                p,
                sms_body_bytes(
                    phone_number@,
                    template_id@,
                    opt_members_view(personalisation),
                    opt_str_view(reference),
                    opt_str_view(sms_sender_id),
                ),
            )),
            self.api_key@.len() < 73 ==> (r matches Err(e) && e == NotifyError::InvalidApiKey),
    {
        let ghost gp = opt_members_view(personalisation);
        let ghost gr = opt_str_view(reference);
        let ghost gs = opt_str_view(sms_sender_id);
        let mut body: Vec<Member> = Vec::new();
        body.push(Member { key: "phone_number".to_owned(), value: JsonValue::Str(phone_number) });
        body.push(Member { key: "template_id".to_owned(), value: JsonValue::Str(template_id) });
        proof {
            lemma_two_members(body@);
            assert(members_bytes(body@) =~= str_member("phone_number"@, phone_number@) + seq![
                44u8,
            ] + str_member("template_id"@, template_id@));
        }
        let r = self.send_notification(
            NotificationType::SMS,
            body,
            personalisation,
            reference,
            sms_sender_id,
        );
        proof {
            if self.api_key@.len() >= 73 {
                assert(r matches Ok(p) ==> p.body@ =~= sms_body_bytes(
                    phone_number@,
                    template_id@,
                    gp,
                    gr,
                    gs,
                ));
            }
        }
        r
    }

    /// The shared build-and-prepare step: derives a fresh token, merges
    /// the optional fields into the body, and assembles URL and headers.
    fn send_notification(
        &self,
        notification_type: NotificationType,
        body: Vec<Member>,
        personalisation: Option<Vec<Member>>,
        reference: Option<String>,
        sms_sender_id: Option<String>,
    ) -> (r: Result<PreparedRequest, NotifyError>)
        requires
            body@.len() >= 1,
        ensures
            self.api_key@.len() >= 73 ==> (r matches Ok(p) && prepared_ok(
                *self,
                notification_type,
                p,
                seq![123u8] + members_bytes(body@) + body_tail(
                    opt_members_view(personalisation),
                    opt_str_view(reference),
                    opt_str_view(sms_sender_id),
                ) + seq![125u8],
            )),
            self.api_key@.len() < 73 ==> (r matches Err(e) && e == NotifyError::InvalidApiKey),
    {
        let token = match create_jwt(&self.api_key) {
            Ok(t) => t,
            Err(e) => {
                return Err(e);
            },
        };

        let out = build_body(body, personalisation, reference, sms_sender_id);

        let url = match notification_type {
            NotificationType::EMAIL => self.notify_server.clone().concat(
                "/v2/notifications/email",
            ),
            NotificationType::SMS => self.notify_server.clone().concat("/v2/notifications/sms"),
        };
        let mut authorization = "Bearer ".to_owned();
        authorization.append(token.as_str());
        let user_agent = "rust-client-pre-alpha".to_owned();
        let content_type = "application/json".to_owned();
        Ok(PreparedRequest { url, authorization, user_agent, content_type, body: out })
    }
}

/// Serializes a body: the required members, then exactly the optional
/// fields that were supplied, between braces.
#[verifier::rlimit(100)]
fn build_body(
    body: Vec<Member>,
    personalisation: Option<Vec<Member>>,
    reference: Option<String>,
    sms_sender_id: Option<String>,
) -> (r: Vec<u8>)
    requires
        body@.len() >= 1,
    ensures
        r@ == seq![123u8] + members_bytes(body@) + body_tail(
            opt_members_view(personalisation),
            opt_str_view(reference),
            opt_str_view(sms_sender_id),
        ) + seq![125u8],
{
    let ghost base = body@;
    let ghost gp = opt_members_view(personalisation);
    let ghost gr = opt_str_view(reference);
    let ghost gs = opt_str_view(sms_sender_id);
    let ghost part1: Seq<u8> = match gp {
        Some(p) => seq![44u8] + obj_member("personalisation"@, p),
        None => Seq::empty(),
    };
    let ghost part2: Seq<u8> = match gr {
        Some(r) => seq![44u8] + str_member("reference"@, r),
        None => Seq::empty(),
    };
    let ghost part3: Seq<u8> = match gs {
        Some(v) => seq![44u8] + str_member("sms_sender_id"@, v),
        None => Seq::empty(),
    };
    let mut ms = body;
    if let Some(p) = personalisation {
        let ghost before = ms@;
        let ghost pv = p@;
        ms.push(Member { key: "personalisation".to_owned(), value: JsonValue::Obj(p) });
        proof {
            crate::json::lemma_members_snoc(before, ms@.last());
            assert(member_bytes(ms@.last()) =~= obj_member("personalisation"@, pv));
        }
    }
    assert(members_bytes(ms@) =~= members_bytes(base) + part1);
    if let Some(rs) = reference {
        let ghost before = ms@;
        let ghost rv = rs@;
        ms.push(Member { key: "reference".to_owned(), value: JsonValue::Str(rs) });
        proof {
            crate::json::lemma_members_snoc(before, ms@.last());
            assert(member_bytes(ms@.last()) =~= str_member("reference"@, rv));
        }
    }
    assert(members_bytes(ms@) =~= members_bytes(base) + part1 + part2);
    if let Some(ss) = sms_sender_id {
        let ghost before = ms@;
        let ghost sv = ss@;
        ms.push(Member { key: "sms_sender_id".to_owned(), value: JsonValue::Str(ss) });
        proof {
            crate::json::lemma_members_snoc(before, ms@.last());
            assert(member_bytes(ms@.last()) =~= str_member("sms_sender_id"@, sv));
        }
    }
    assert(members_bytes(ms@) =~= members_bytes(base) + part1 + part2 + part3);
    let mut out: Vec<u8> = Vec::new();
    out.push(123);
    push_members(&ms, &mut out);
    out.push(125);
    proof {
        assert(body_tail(gp, gr, gs) == part1 + part2 + part3);
        assert(out@ =~= seq![123u8] + members_bytes(base) + body_tail(gp, gr, gs) + seq![125u8]);
    }
    out
}

/// Unfolds the serialization of a two-member object prefix.
proof fn lemma_two_members(ms: Seq<Member>)
    requires
        ms.len() == 2,
    ensures
        members_bytes(ms) == member_bytes(ms[0]) + seq![44u8] + member_bytes(ms[1]),
{
    assert(ms.drop_last() =~= seq![ms[0]]);
    assert(members_bytes(seq![ms[0]]) == member_bytes(ms[0]));
}

} // verus!
