//! The subscription and confirmation workflows over a subscriber store.
use vstd::prelude::*;
use vstd::string::*;
use crate::domain::{
    ascii_alphanumeric_text, email_error, has_ascii_symbol, name_error, token_error, valid_email, valid_name,
    valid_token, FormData, NewSubscriber, SubscriptionToken, TOKEN_LEN,
};
use crate::store::{
    after_confirm, after_store_token, after_upsert, email_pos, has_email, has_id, has_token, held_by,
    holder_pos, id_pos, lemma_confirm, lemma_count_unique, lemma_last_pos, lemma_last_pos_at,
    lemma_store_token_wf, lemma_upsert, resolved, rows_with_email, status_of, store_token_error,
    token_pos, upsert_outcome, wf, Status, StorageError, StoreView, SubscriberStore, TokenRow,
};

verus! {

/// Why a subscription attempt failed.
pub enum SubscribeError {
    /// The name or the email was rejected; nothing was written.
    ValidationError(String),
    /// The store refused a write; the attempt was rolled back.
    StorageError(StorageError),
    /// The subscriber and token were committed but the confirmation email
    /// could not be sent.
    EmailError(String),
}

impl SubscribeError {
    pub fn status_code(&self) -> (r: u16)
        ensures
            r == (if self is ValidationError { 400u16 } else { 500u16 }),
    {
        match self {
            SubscribeError::ValidationError(_) => 400,
            SubscribeError::StorageError(_) => 500,
            SubscribeError::EmailError(_) => 500,
        }
    }
}

/// Why a confirmation request failed.
pub enum ConfirmError {
    /// The token is not alphanumeric.
    ValidationError(String),
    /// A failure outside the request's control.
    UnexpectedError(String),
}

impl ConfirmError {
    pub fn status_code(&self) -> (r: u16)
        ensures
            r == (if self is ValidationError { 400u16 } else { 500u16 }),
    {
        match self {
            ConfirmError::ValidationError(_) => 400,
            ConfirmError::UnexpectedError(_) => 500,
        }
    }
}

/// What a well-formed confirmation request comes to.
#[derive(Clone, Copy, PartialEq, Eq, Structural, Debug)]
pub enum ConfirmOutcome {
    /// The token's subscriber is now confirmed.
    Confirmed,
    /// No subscriber holds the token.
    Unauthorized,
}

impl ConfirmOutcome {
    pub fn status_code(&self) -> (r: u16)
        ensures
            r == (if *self == ConfirmOutcome::Confirmed { 200u16 } else { 401u16 }),
    {
        match self {
            ConfirmOutcome::Confirmed => 200,
            ConfirmOutcome::Unauthorized => 401,
        }
    }
}

/// The query of a confirmation request.
pub struct Parameters {
    pub subscription_token: String,
}

/// The store that a subscription attempt commits, or `None` when the store
/// refuses one of its writes (and nothing is committed).
pub open spec fn subscribed(
    v: StoreView,
    name: Seq<char>,
    email: Seq<char>,
    candidate: u128,
    at: i64,
    token: Seq<char>,
) -> Option<StoreView> {
    match upsert_outcome(v, email, candidate) {
        Some(id) => {
            let u = after_upsert(v, name, email, candidate, at);
            if store_token_error(u, id, token) is None {
                Some(after_store_token(u, id, token))
            } else {
                None
            }
        },
        None => None,
    }
}

/// The message of the validation error for a form.
pub open spec fn form_error(name: Seq<char>, email: Seq<char>) -> Seq<char> {
    if !valid_name(name) {
        name_error(name)
    } else {
        email_error(email)
    }
}

/// Relies on uuid's `Uuid::new_v4`: a random identifier, of which nothing is promised.
#[verifier::external_body]
fn random_subscriber_id() -> (r: u128) {
    uuid::Uuid::new_v4().as_u128()
}

/// Relies on chrono's `Utc::now`: the current time in seconds since the epoch.
#[verifier::external_body]
fn current_timestamp() -> (r: i64) {
    chrono::Utc::now().timestamp()
}

/// Validates the form, then upserts the subscriber and stores `token` for
/// it as one transaction, with `candidate` as the identifier of a new row
/// and `subscribed_at` as its time.
pub fn subscribe_with(
    store: &mut SubscriberStore,
    form: FormData,
    candidate: u128,
    subscribed_at: i64,
    token: SubscriptionToken,
) -> (r: Result<SubscriptionToken, SubscribeError>)
    requires
        wf(old(store)@),
    ensures
        wf(final(store)@),
        !(valid_name(form.name@) && valid_email(form.email@)) ==> r is Err && r->Err_0 is ValidationError
            && final(store)@ == old(store)@,
        r is Err && r->Err_0 is ValidationError ==> r->Err_0->ValidationError_0@ == form_error(form.name@, form.email@),
        valid_name(form.name@) && valid_email(form.email@) ==> match subscribed(
            old(store)@,
            form.name@,
            form.email@,
            candidate,
            subscribed_at,
            token@,
        ) {
            Some(w) => r is Ok && r->Ok_0@ == token@ && final(store)@ == w,
            None => r is Err && r->Err_0 is StorageError && final(store)@ == old(store)@,
        },
{
    let new_subscriber = match NewSubscriber::parse_form(form) {
        Ok(n) => n,
        Err(e) => return Err(SubscribeError::ValidationError(e)),
    };
    let mut tx = store.begin();
    let id = match tx.insert_subscriber(&new_subscriber, candidate, subscribed_at) {
        Ok(id) => id,
        Err(e) => return Err(SubscribeError::StorageError(e)),
    };
    match tx.store_token(id, &token) {
        Ok(_) => {},
        Err(e) => return Err(SubscribeError::StorageError(e)),
    }
    *store = tx;
    Ok(token)
}

/// Subscribes with a fresh random identifier, the current time and a fresh
/// token, and returns the token.
pub fn subscribe(store: &mut SubscriberStore, form: FormData) -> (r: Result<SubscriptionToken, SubscribeError>)
    requires
        wf(old(store)@),
    ensures
        wf(final(store)@),
        !(valid_name(form.name@) && valid_email(form.email@)) ==> r is Err && r->Err_0 is ValidationError
            && final(store)@ == old(store)@,
        r is Err && r->Err_0 is ValidationError ==> !(valid_name(form.name@) && valid_email(form.email@))
            && r->Err_0->ValidationError_0@ == form_error(form.name@, form.email@),
        valid_name(form.name@) && valid_email(form.email@) && old(store)@.subscribers.len() == 0 ==> r is Ok,
        r is Ok ==> valid_name(form.name@) && valid_email(form.email@)
            && r->Ok_0@.len() == TOKEN_LEN && valid_token(r->Ok_0@)
            && exists|c: u128, at: i64| subscribed(old(store)@, form.name@, form.email@, c, at, r->Ok_0@)
                == Some(final(store)@),
        r is Err && r->Err_0 is StorageError ==> final(store)@ == old(store)@
            && exists|c: u128, at: i64, t: Seq<char>| subscribed(old(store)@, form.name@, form.email@, c, at, t) is None,
        !(r is Err && r->Err_0 is EmailError),
{
    let candidate = random_subscriber_id();
    let at = current_timestamp();
    let token = SubscriptionToken::generate();
    let ghost t = token@;
    proof {
        if old(store)@.subscribers.len() == 0 {
            lemma_subscribe_empty(old(store)@, form.name@, form.email@, candidate, at, t);
        }
    }
    let r = subscribe_with(store, form, candidate, at, token);
    proof {
        if r is Ok {
            assert(subscribed(old(store)@, form.name@, form.email@, candidate, at, r->Ok_0@)
                == Some(final(store)@));
        }
        if r is Err && r->Err_0 is StorageError {
            assert(subscribed(old(store)@, form.name@, form.email@, candidate, at, t) is None);
        }
    }
    r
}

/// On a store with no subscriber, every subscription attempt commits.
pub proof fn lemma_subscribe_empty(v: StoreView, name: Seq<char>, email: Seq<char>, c: u128, at: i64, t: Seq<char>)
    requires
        wf(v),
        v.subscribers.len() == 0,
    ensures
        subscribed(v, name, email, c, at, t) is Some,
{
    lemma_last_pos(v.subscribers, has_email(email));
    lemma_last_pos(v.subscribers, has_id(c));
    if v.tokens.len() > 0 {
        lemma_last_pos(v.subscribers, has_id(v.tokens[0].subscriber_id));
        assert(id_pos(v, v.tokens[0].subscriber_id) >= 0);
    }
    lemma_upsert(v, name, email, c, at);
    let u = after_upsert(v, name, email, c, at);
    assert(u.tokens.len() == 0);
    assert(token_pos(u, t) == -1);
}

/// The link that confirms the subscription holding `token`.
pub fn confirmation_link(base_url: &str, token: &SubscriptionToken) -> (r: String)
    ensures
        r@ == base_url@ + "/subscriptions/confirm?subscription_token="@ + token@,
{
    let mut s = String::from_str(base_url);
    s.append("/subscriptions/confirm?subscription_token=");
    s.append(token.as_str());
    s
}

/// The result of a subscription once the confirmation email was sent or not:
/// a failed send is reported as such, with the subscriber already stored.
pub fn finish_subscription(sent: Result<(), String>) -> (r: Result<(), SubscribeError>)
    ensures
        sent is Ok ==> r is Ok,
        sent is Err ==> r is Err && r->Err_0 == SubscribeError::EmailError(sent->Err_0),
{
    match sent {
        Ok(_) => Ok(()),
        Err(e) => Err(SubscribeError::EmailError(e)),
    }
}

/// Parses the token, finds its subscriber and marks it confirmed.
pub fn confirm(store: &mut SubscriberStore, parameters: Parameters) -> (r: Result<ConfirmOutcome, ConfirmError>)
    requires
        wf(old(store)@),
    ensures
        wf(final(store)@),
        !valid_token(parameters.subscription_token@) ==> r is Err && r->Err_0 is ValidationError
            && final(store)@ == old(store)@,
        valid_token(parameters.subscription_token@) ==> match resolved(old(store)@, parameters.subscription_token@) {
            Some(id) => r == Ok::<ConfirmOutcome, ConfirmError>(ConfirmOutcome::Confirmed)
                && final(store)@ == after_confirm(old(store)@, id),
            None => r == Ok::<ConfirmOutcome, ConfirmError>(ConfirmOutcome::Unauthorized)
                && final(store)@ == old(store)@,
        },
        ascii_alphanumeric_text(parameters.subscription_token@)
            && resolved(old(store)@, parameters.subscription_token@) is None
            ==> r == Ok::<ConfirmOutcome, ConfirmError>(ConfirmOutcome::Unauthorized) && final(store)@ == old(store)@,
        has_ascii_symbol(parameters.subscription_token@) ==> r is Err && r->Err_0 is ValidationError
            && final(store)@ == old(store)@,
        r is Err ==> r->Err_0 is ValidationError && r->Err_0->ValidationError_0@ == token_error(),
{
    let token = match SubscriptionToken::parse(parameters.subscription_token) {
        Ok(t) => t,
        Err(e) => return Err(ConfirmError::ValidationError(e)),
    };
    match store.resolve_token(&token) {
        None => Ok(ConfirmOutcome::Unauthorized),
        Some(id) => {
            store.confirm_subscriber(id);
            Ok(ConfirmOutcome::Confirmed)
        },
    }
}

/// After a committed subscription attempt the token resolves to the
/// subscriber of the email, whose row carries the same identifier.
proof fn lemma_subscribed(v: StoreView, name: Seq<char>, email: Seq<char>, c: u128, at: i64, t: Seq<char>)
    requires
        wf(v),
        subscribed(v, name, email, c, at, t) is Some,
    ensures
        ({
            let w = subscribed(v, name, email, c, at, t)->Some_0;
            let id = upsert_outcome(v, email, c)->Some_0;
            &&& wf(w)
            &&& resolved(w, t) == Some(id)
            &&& 0 <= email_pos(w, email) < w.subscribers.len()
            &&& w.subscribers[email_pos(w, email)].id == id
            &&& w.subscribers == after_upsert(v, name, email, c, at).subscribers
        }),
{
    let id = upsert_outcome(v, email, c)->Some_0;
    let u = after_upsert(v, name, email, c, at);
    lemma_upsert(v, name, email, c, at);
    lemma_store_token_wf(u, id, t);
    let w = after_store_token(u, id, t);
    lemma_last_pos(u.tokens, held_by(id));
    let h = holder_pos(u, id);
    let k = if h >= 0 { h } else { u.tokens.len() as int };
    assert(w.tokens[k] == TokenRow { token: t, subscriber_id: id });
    assert(has_token(t)(w.tokens[k]));
    lemma_last_pos(w.tokens, has_token(t));
    let q = token_pos(w, t);
    if q != k {
        assert(w.tokens[q].token != w.tokens[k].token);
    }
}

/// The subscriber with identifier `id` sits at the email's row once the
/// row's identifier is `id`.
proof fn lemma_id_at_email(v: StoreView, email: Seq<char>, id: u128)
    requires
        wf(v),
        0 <= email_pos(v, email) < v.subscribers.len(),
        v.subscribers[email_pos(v, email)].id == id,
    ensures
        id_pos(v, id) == email_pos(v, email),
{
    let p = email_pos(v, email);
    assert(has_id(id)(v.subscribers[p]));
    lemma_last_pos(v.subscribers, has_id(id));
    let q = id_pos(v, id);
    if q != p {
        assert(v.subscribers[q].email != v.subscribers[p].email);
    }
}

/// Confirming the subscriber of an email's row: the email keeps one row,
/// now confirmed.
proof fn lemma_confirm_row(v: StoreView, email: Seq<char>, id: u128)
    requires
        wf(v),
        0 <= email_pos(v, email) < v.subscribers.len(),
        v.subscribers[email_pos(v, email)].id == id,
    ensures
        status_of(after_confirm(v, id), email) == Some(Status::Confirmed),
        rows_with_email(after_confirm(v, id), email) == 1,
{
    let p = email_pos(v, email);
    lemma_id_at_email(v, email, id);
    lemma_confirm(v, id);
    let x = after_confirm(v, id);
    lemma_last_pos(v.subscribers, has_email(email));
    assert forall|k: int| p < k < x.subscribers.len() implies !has_email(email)(#[trigger] x.subscribers[k]) by {
        assert(x.subscribers[k] == v.subscribers[k]);
    }
    assert(has_email(email)(x.subscribers[p]));
    lemma_last_pos_at(x.subscribers, has_email(email), p);
    assert forall|i: int, j: int|
        0 <= i < x.subscribers.len() && 0 <= j < x.subscribers.len() && i != j
            && has_email(email)(#[trigger] x.subscribers[i])
        implies !has_email(email)(#[trigger] x.subscribers[j]) by {
        assert(x.subscribers[i].email != x.subscribers[j].email);
    }
    lemma_count_unique(x.subscribers, has_email(email));
}

/// Subscribing with a valid name and email and then confirming with the
/// token that was issued leaves exactly one row for the email, and that row
/// is confirmed.
pub proof fn lemma_subscribe_then_confirm(
    v: StoreView,
    name: Seq<char>,
    email: Seq<char>,
    c: u128,
    at: i64,
    t: Seq<char>,
)
    requires
        wf(v),
        valid_name(name),
        valid_email(email),
        subscribed(v, name, email, c, at, t) is Some,
    ensures
        ({
            let w = subscribed(v, name, email, c, at, t)->Some_0;
            &&& resolved(w, t) is Some
            &&& status_of(after_confirm(w, resolved(w, t)->Some_0), email) == Some(Status::Confirmed)
            &&& rows_with_email(after_confirm(w, resolved(w, t)->Some_0), email) == 1
        }),
{
    lemma_subscribed(v, name, email, c, at, t);
    let w = subscribed(v, name, email, c, at, t)->Some_0;
    lemma_confirm_row(w, email, upsert_outcome(v, email, c)->Some_0);
}

/// Subscribing the same email twice keeps one row for it; the second
/// attempt writes no subscriber field, and its token replaces the first:
/// the first no longer resolves, the second resolves to the same subscriber.
pub proof fn lemma_resubscribe(
    v: StoreView,
    name1: Seq<char>,
    name2: Seq<char>,
    email: Seq<char>,
    c1: u128,
    c2: u128,
    at1: i64,
    at2: i64,
    t1: Seq<char>,
    t2: Seq<char>,
)
    requires
        wf(v),
        t1 != t2,
        subscribed(v, name1, email, c1, at1, t1) is Some,
        subscribed(subscribed(v, name1, email, c1, at1, t1)->Some_0, name2, email, c2, at2, t2) is Some,
    ensures
        ({
            let w1 = subscribed(v, name1, email, c1, at1, t1)->Some_0;
            let w2 = subscribed(w1, name2, email, c2, at2, t2)->Some_0;
            &&& after_upsert(w1, name2, email, c2, at2) == w1
            &&& w2.subscribers == w1.subscribers
            &&& rows_with_email(w2, email) == 1
            &&& resolved(w2, t1) is None
            &&& resolved(w2, t2) == resolved(w1, t1)
        }),
{
    lemma_subscribed(v, name1, email, c1, at1, t1);
    let w1 = subscribed(v, name1, email, c1, at1, t1)->Some_0;
    let id = upsert_outcome(v, email, c1)->Some_0;
    assert(upsert_outcome(w1, email, c2) == Some(id));
    assert(after_upsert(w1, name2, email, c2, at2) == w1);
    lemma_subscribed(w1, name2, email, c2, at2, t2);
    let w2 = subscribed(w1, name2, email, c2, at2, t2)->Some_0;
    // The row count.
    let p = email_pos(w2, email);
    lemma_last_pos(w2.subscribers, has_email(email));
    assert forall|i: int, j: int|
        0 <= i < w2.subscribers.len() && 0 <= j < w2.subscribers.len() && i != j
            && has_email(email)(#[trigger] w2.subscribers[i])
        implies !has_email(email)(#[trigger] w2.subscribers[j]) by {
        assert(w2.subscribers[i].email != w2.subscribers[j].email);
    }
    lemma_count_unique(w2.subscribers, has_email(email));
    // The first token is gone: `id` held it, and its row now holds `t2`.
    lemma_last_pos(w1.tokens, has_token(t1));
    lemma_last_pos(w1.tokens, held_by(id));
    let q1 = token_pos(w1, t1);
    assert(w1.tokens[q1].subscriber_id == id);
    assert(held_by(id)(w1.tokens[q1]));
    let h = holder_pos(w1, id);
    if h != q1 {
        assert(w1.tokens[h].subscriber_id != w1.tokens[q1].subscriber_id);
    }
    assert(w2.tokens == w1.tokens.update(h, TokenRow { token: t2, subscriber_id: id }));
    assert forall|k: int| -1 < k < w2.tokens.len() implies !has_token(t1)(#[trigger] w2.tokens[k]) by {
        if k != h {
            assert(w2.tokens[k] == w1.tokens[k]);
            if w1.tokens[k].token == t1 {
                assert(w1.tokens[k].token != w1.tokens[q1].token);
            }
        }
    }
    lemma_last_pos_at(w2.tokens, has_token(t1), -1);
}

/// Confirming twice with the same token: the token still resolves to the
/// same subscriber after the first confirmation, and the second
/// confirmation changes nothing.
pub proof fn lemma_confirm_twice(v: StoreView, t: Seq<char>)
    requires
        wf(v),
        resolved(v, t) is Some,
    ensures
        ({
            let id = resolved(v, t)->Some_0;
            &&& resolved(after_confirm(v, id), t) == Some(id)
            &&& after_confirm(after_confirm(v, id), id) == after_confirm(v, id)
        }),
{
    let id = resolved(v, t)->Some_0;
    lemma_confirm(v, id);
    let x = after_confirm(v, id);
    let p = id_pos(v, id);
    lemma_last_pos(v.subscribers, has_id(id));
    lemma_last_pos(v.tokens, has_token(t));
    let q = token_pos(v, t);
    assert(id_pos(v, v.tokens[q].subscriber_id) >= 0);
    assert forall|k: int| p < k < x.subscribers.len() implies !has_id(id)(#[trigger] x.subscribers[k]) by {
        assert(x.subscribers[k].id == v.subscribers[k].id);
    }
    assert(x.subscribers[p].id == v.subscribers[p].id);
    assert(has_id(id)(x.subscribers[p]));
    lemma_last_pos_at(x.subscribers, has_id(id), p);
    assert(after_confirm(x, id).subscribers =~= x.subscribers);
}

} // verus!
