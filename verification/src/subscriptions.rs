//! The subscription ingestion pipeline: what a submission turns into,
//! and what the endpoint answers.
//!
//! The store itself is a relational table owned by the database; the
//! decisions around it are all here.  [`SubscriptionTable`] is the
//! model of that table an insert appends to, and
//! [`handle_submission`] is the whole request-level transition: it
//! takes the raw body, the freshly generated identifier and timestamp,
//! and the store's verdict, and produces the response and the table's
//! next state.  The process entry point replays the same transition
//! against the real table.

use crate::forms::{spec_parse_form, FormData};
use crate::routes::Response;
use crate::text::lossy_utf8;
use vstd::prelude::*;

verus! {

/// One accepted newsletter signup, as persisted: a server-generated
/// identifier, the submitted fields, and a server-generated UTC
/// timestamp in microseconds.
pub struct SubscriberRecord {
    pub id: u128,
    pub email: String,
    pub name: String,
    pub subscribed_at: i64,
}

/// The mathematical shape of a [`SubscriberRecord`].
pub struct SubscriberRecordV {
    pub id: u128,
    pub email: Seq<char>,
    pub name: Seq<char>,
    pub subscribed_at: i64,
}

impl View for SubscriberRecord {
    type V = SubscriberRecordV;

    open spec fn view(&self) -> SubscriberRecordV {
        SubscriberRecordV {
            id: self.id,
            email: self.email@,
            name: self.name@,
            subscribed_at: self.subscribed_at,
        }
    }
}

/// The model of the subscriptions table: the rows in insertion order.
/// Nothing ever updates or deletes a row.
pub struct SubscriptionTable {
    rows: Vec<SubscriberRecord>,
}

impl View for SubscriptionTable {
    type V = Seq<SubscriberRecordV>;

    closed spec fn view(&self) -> Seq<SubscriberRecordV> {
        self.rows@.map_values(|r: SubscriberRecord| r@)
    }
}

impl SubscriptionTable {
    /// An empty table.
    pub fn new() -> (t: Self)
        ensures
            t@ == Seq::<SubscriberRecordV>::empty(),
    {
        let t = SubscriptionTable { rows: Vec::new() };
        proof {
            assert(t@ =~= Seq::<SubscriberRecordV>::empty());
        }
        t
    }

    /// How many rows the table holds.
    pub fn len(&self) -> (n: usize)
        ensures
            n == self@.len(),
    {
        self.rows.len()
    }

    /// The row at `i`.
    pub fn row(&self, i: usize) -> (r: &SubscriberRecord)
        requires
            i < self@.len(),
        ensures
            r@ == self@[i as int],
    {
        &self.rows[i]
    }

    /// Appends one row; every earlier row is untouched.
    pub fn insert(&mut self, record: SubscriberRecord)
        ensures
            final(self)@ == old(self)@.push(record@),
    {
        let ghost rv = record@;
        let ghost pre = self.rows@;
        self.rows.push(record);
        proof {
            assert forall|k: int| 0 <= k < self.rows@.len() implies self@[k] == old(
                self,
            )@.push(rv)[k] by {
                if k < pre.len() {
                    assert(self.rows@[k] == pre[k]);
                }
            }
            assert(self@ =~= old(self)@.push(rv));
        }
    }
}

/// What one submission does to the table and answers to the caller:
/// an ill-formed body is refused with 400 before the store is touched;
/// a well-formed one becomes exactly one appended row carrying the
/// submitted fields, answered with 200; a store failure leaves the
/// table as it was and answers 500.
pub open spec fn spec_submit(
    rows: Seq<SubscriberRecordV>,
    body: Seq<u8>,
    id: u128,
    at: i64,
    store_ok: bool,
) -> (Seq<SubscriberRecordV>, u16) {
    match spec_parse_form(body) {
        None => (rows, 400),
        Some(f) => {
            if store_ok {
                (
                    rows.push(
                        SubscriberRecordV {
                            id,
                            email: lossy_utf8(f.email),
                            name: lossy_utf8(f.name),
                            subscribed_at: at,
                        },
                    ),
                    200,
                )
            } else {
                (rows, 500)
            }
        },
    }
}

/// Relies on `uuid::Uuid::new_v4`: a freshly generated random
/// version-4 identifier; nothing can be promised of its value.
#[verifier::external_body]
fn generate_subscriber_id() -> u128 {
    uuid::Uuid::new_v4().as_u128()
}

/// Relies on chrono's `Utc::now` (as re-exported by sqlx): the current
/// UTC time in microseconds; nothing can be promised of its value.
#[verifier::external_body]
fn current_timestamp_micros() -> i64 {
    sqlx::types::chrono::Utc::now().timestamp_micros()
}

/// Builds the row a well-formed submission persists: the submitted
/// fields as they are, under a freshly generated identifier and the
/// current timestamp.
pub fn new_subscriber_record(form: &FormData) -> (r: SubscriberRecord)
    ensures
        r.email@ == form.email@,
        r.name@ == form.name@,
{
    SubscriberRecord {
        id: generate_subscriber_id(),
        email: form.email.clone(),
        name: form.name.clone(),
        subscribed_at: current_timestamp_micros(),
    }
}

/// The response the endpoint gives once the store has spoken: an empty
/// 200 on success, an empty 500 on any store failure.
pub fn subscribe_response(store_ok: bool) -> (r: Response)
    ensures
        r.status == (if store_ok {
            200u16
        } else {
            500u16
        }),
        r.body@.len() == 0,
{
    if store_ok {
        Response { status: 200, body: Vec::new() }
    } else {
        Response { status: 500, body: Vec::new() }
    }
}

/// The whole request-level transition of `POST /subscriptions`, played
/// against the table model: parse the body, and either refuse it with
/// 400, or append the one new row (under the given fresh identifier
/// and timestamp) and answer 200, or — when the store refuses — leave
/// the table untouched and answer 500.  Every response has an empty
/// body.
pub fn handle_submission(
    table: &mut SubscriptionTable,
    body: &[u8],
    id: u128,
    at: i64,
    store_ok: bool,
) -> (r: Response)
    ensures
        r.body@.len() == 0,
        final(table)@ == spec_submit(old(table)@, body@, id, at, store_ok).0,
        r.status == spec_submit(old(table)@, body@, id, at, store_ok).1,
{
    match crate::forms::parse_form(body) {
        None => Response { status: 400, body: Vec::new() },
        Some(form) => {
            if store_ok {
                let record = SubscriberRecord {
                    id,
                    email: form.email,
                    name: form.name,
                    subscribed_at: at,
                };
                table.insert(record);
                Response { status: 200, body: Vec::new() }
            } else {
                Response { status: 500, body: Vec::new() }
            }
        },
    }
}

/// A well-formed submission the store accepts answers 200 and leaves
/// behind exactly one new row, the last one, carrying the submitted
/// `email` and `name`; every earlier row is untouched.
pub proof fn lemma_valid_submission_adds_row(
    rows: Seq<SubscriberRecordV>,
    body: Seq<u8>,
    id: u128,
    at: i64,
)
    requires
        spec_parse_form(body) is Some,
    ensures
        ({
            let (rows2, status) = spec_submit(rows, body, id, at, true);
            &&& status == 200
            &&& rows2.len() == rows.len() + 1
            &&& forall|k: int| 0 <= k < rows.len() ==> rows2[k] == rows[k]
            &&& match spec_parse_form(body) {
                Some(f) => rows2.last() == (SubscriberRecordV {
                    id,
                    email: lossy_utf8(f.email),
                    name: lossy_utf8(f.name),
                    subscribed_at: at,
                }),
                None => false,
            }
        }),
{
}

/// A submission whose body is missing `name`, `email` or both — or is
/// otherwise ill-formed — answers 400 and inserts nothing, whatever
/// the store would have said.
pub proof fn lemma_missing_field_rejected(
    rows: Seq<SubscriberRecordV>,
    body: Seq<u8>,
    id: u128,
    at: i64,
    store_ok: bool,
)
    requires
        spec_parse_form(body) is None,
    ensures
        spec_submit(rows, body, id, at, store_ok).0 == rows,
        spec_submit(rows, body, id, at, store_ok).1 == 400,
{
}

/// Submitting the same well-formed body twice is not deduplicated: the
/// two submissions leave two distinct rows, equal in `email` and
/// `name`, under the two distinct freshly generated identifiers.
pub proof fn lemma_repeat_submission_two_rows(
    rows: Seq<SubscriberRecordV>,
    body: Seq<u8>,
    id1: u128,
    at1: i64,
    id2: u128,
    at2: i64,
)
    requires
        spec_parse_form(body) is Some,
        id1 != id2,
    ensures
        ({
            let (rows1, status1) = spec_submit(rows, body, id1, at1, true);
            let (rows2, status2) = spec_submit(rows1, body, id2, at2, true);
            &&& status1 == 200
            &&& status2 == 200
            &&& rows2.len() == rows.len() + 2
            &&& rows2[rows.len() as int].id == id1
            &&& rows2[rows.len() as int + 1].id == id2
            &&& rows2[rows.len() as int].id != rows2[rows.len() as int + 1].id
            &&& rows2[rows.len() as int].email == rows2[rows.len() as int + 1].email
            &&& rows2[rows.len() as int].name == rows2[rows.len() as int + 1].name
        }),
{
}

} // verus!
