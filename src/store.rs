//! The subscriber store: subscriber rows keyed by email and token rows keyed
//! by subscriber, with the rules of insert-or-keep by email and one live
//! token per subscriber.
use vstd::prelude::*;
use vstd::string::*;
use crate::domain::{same_text, NewSubscriber, SubscriptionToken};

verus! {

#[derive(Clone, Copy, PartialEq, Eq, Structural, Debug)]
pub enum Status {
    PendingConfirmation,
    Confirmed,
}

impl Status {
    pub fn as_str(&self) -> (r: &'static str)
        ensures
            r@ == (if *self == Status::Confirmed { "confirmed"@ } else { "pending_confirmation"@ }),
    {
        match self {
            Status::PendingConfirmation => "pending_confirmation",
            Status::Confirmed => "confirmed",
        }
    }
}

/// Why the store refused a write.
#[derive(Clone, Copy, PartialEq, Eq, Structural, Debug)]
pub enum StorageError {
    /// A new row's identifier is already taken by another row.
    DuplicateId,
    /// The token is already live for another subscriber.
    DuplicateToken,
    /// No subscriber has the identifier.
    UnknownSubscriber,
}

/// A subscriber row, as a mathematical value.
pub struct SubscriberRow {
    pub id: u128,
    pub email: Seq<char>,
    pub name: Seq<char>,
    pub subscribed_at: i64,
    pub status: Status,
}

/// A token row, as a mathematical value.
pub struct TokenRow {
    pub token: Seq<char>,
    pub subscriber_id: u128,
}

/// The whole store, as a mathematical value.
pub struct StoreView {
    pub subscribers: Seq<SubscriberRow>,
    pub tokens: Seq<TokenRow>,
}

/// The last position in `s` at which `f` holds, or -1.
pub open spec fn last_pos<A>(s: Seq<A>, f: spec_fn(A) -> bool) -> int
    decreases s.len(),
{
    if s.len() == 0 {
        -1
    } else if f(s.last()) {
        s.len() - 1
    } else {
        last_pos(s.drop_last(), f)
    }
}

/// How many elements of `s` satisfy `f`.
pub open spec fn count_where<A>(s: Seq<A>, f: spec_fn(A) -> bool) -> nat
    decreases s.len(),
{
    if s.len() == 0 {
        0
    } else {
        count_where(s.drop_last(), f) + if f(s.last()) { 1nat } else { 0nat }
    }
}

pub open spec fn has_email(e: Seq<char>) -> spec_fn(SubscriberRow) -> bool {
    |r: SubscriberRow| r.email == e
}

pub open spec fn has_id(id: u128) -> spec_fn(SubscriberRow) -> bool {
    |r: SubscriberRow| r.id == id
}

pub open spec fn has_token(t: Seq<char>) -> spec_fn(TokenRow) -> bool {
    |r: TokenRow| r.token == t
}

pub open spec fn held_by(id: u128) -> spec_fn(TokenRow) -> bool {
    |r: TokenRow| r.subscriber_id == id
}

pub open spec fn email_pos(v: StoreView, e: Seq<char>) -> int {
    last_pos(v.subscribers, has_email(e))
}

pub open spec fn id_pos(v: StoreView, id: u128) -> int {
    last_pos(v.subscribers, has_id(id))
}

pub open spec fn token_pos(v: StoreView, t: Seq<char>) -> int {
    last_pos(v.tokens, has_token(t))
}

pub open spec fn holder_pos(v: StoreView, id: u128) -> int {
    last_pos(v.tokens, held_by(id))
}

/// Number of subscriber rows with the email `e`.
pub open spec fn rows_with_email(v: StoreView, e: Seq<char>) -> nat {
    count_where(v.subscribers, has_email(e))
}

/// Emails and identifiers are unique among subscribers; each subscriber has
/// at most one token, each token belongs to at most one subscriber, and
/// every token belongs to an existing subscriber.
pub open spec fn wf(v: StoreView) -> bool {
    &&& forall|i: int, j: int|
        0 <= i < v.subscribers.len() && 0 <= j < v.subscribers.len() && i != j
            ==> #[trigger] v.subscribers[i].email != #[trigger] v.subscribers[j].email
            && v.subscribers[i].id != v.subscribers[j].id
    &&& forall|i: int, j: int|
        0 <= i < v.tokens.len() && 0 <= j < v.tokens.len() && i != j
            ==> #[trigger] v.tokens[i].token != #[trigger] v.tokens[j].token
            && v.tokens[i].subscriber_id != v.tokens[j].subscriber_id
    &&& forall|i: int| 0 <= i < v.tokens.len() ==> id_pos(v, #[trigger] v.tokens[i].subscriber_id) >= 0
}

/// The identifier that an upsert of `email` returns, or `None` when the
/// insert would reuse an identifier that is already taken.
pub open spec fn upsert_outcome(v: StoreView, email: Seq<char>, candidate: u128) -> Option<u128> {
    let p = email_pos(v, email);
    if p >= 0 {
        Some(v.subscribers[p].id)
    } else if id_pos(v, candidate) >= 0 {
        None
    } else {
        Some(candidate)
    }
}

/// The store after an upsert: a pending row is added for an unknown email;
/// a known email leaves every row as it was.
pub open spec fn after_upsert(
    v: StoreView,
    name: Seq<char>,
    email: Seq<char>,
    candidate: u128,
    at: i64,
) -> StoreView {
    if email_pos(v, email) < 0 && id_pos(v, candidate) < 0 {
        StoreView {
            subscribers: v.subscribers.push(
                SubscriberRow {
                    id: candidate,
                    email,
                    name,
                    subscribed_at: at,
                    status: Status::PendingConfirmation,
                },
            ),
            tokens: v.tokens,
        }
    } else {
        v
    }
}

/// Why storing token `t` for subscriber `id` is refused, if it is.
pub open spec fn store_token_error(v: StoreView, id: u128, t: Seq<char>) -> Option<StorageError> {
    if id_pos(v, id) < 0 {
        Some(StorageError::UnknownSubscriber)
    } else if token_pos(v, t) >= 0 && v.tokens[token_pos(v, t)].subscriber_id != id {
        Some(StorageError::DuplicateToken)
    } else {
        None
    }
}

/// The store after storing token `t` for subscriber `id`: the subscriber's
/// token is replaced, or added when it had none.
pub open spec fn after_store_token(v: StoreView, id: u128, t: Seq<char>) -> StoreView {
    if store_token_error(v, id, t) is Some {
        v
    } else if holder_pos(v, id) >= 0 {
        StoreView {
            subscribers: v.subscribers,
            tokens: v.tokens.update(holder_pos(v, id), TokenRow { token: t, subscriber_id: id }),
        }
    } else {
        StoreView {
            subscribers: v.subscribers,
            tokens: v.tokens.push(TokenRow { token: t, subscriber_id: id }),
        }
    }
}

/// The subscriber that token `t` belongs to.
pub open spec fn resolved(v: StoreView, t: Seq<char>) -> Option<u128> {
    let p = token_pos(v, t);
    if p >= 0 {
        Some(v.tokens[p].subscriber_id)
    } else {
        None
    }
}

/// The store after marking subscriber `id` confirmed; an unknown identifier
/// changes nothing.
pub open spec fn after_confirm(v: StoreView, id: u128) -> StoreView {
    let p = id_pos(v, id);
    if p >= 0 {
        let r = v.subscribers[p];
        StoreView {
            subscribers: v.subscribers.update(
                p,
                SubscriberRow {
                    id: r.id,
                    email: r.email,
                    name: r.name,
                    subscribed_at: r.subscribed_at,
                    status: Status::Confirmed,
                },
            ),
            tokens: v.tokens,
        }
    } else {
        v
    }
}

/// The status of the subscriber with email `e`.
pub open spec fn status_of(v: StoreView, e: Seq<char>) -> Option<Status> {
    let p = email_pos(v, e);
    if p >= 0 {
        Some(v.subscribers[p].status)
    } else {
        None
    }
}

pub proof fn lemma_last_pos<A>(s: Seq<A>, f: spec_fn(A) -> bool)
    ensures
        -1 <= last_pos(s, f) < s.len(),
        last_pos(s, f) >= 0 ==> f(s[last_pos(s, f)]),
        forall|k: int| last_pos(s, f) < k < s.len() ==> !f(#[trigger] s[k]),
    decreases s.len(),
{
    if s.len() > 0 && !f(s.last()) {
        lemma_last_pos(s.drop_last(), f);
        assert forall|k: int| last_pos(s, f) < k < s.len() implies !f(#[trigger] s[k]) by {
            if k < s.len() - 1 {
                assert(s[k] == s.drop_last()[k]);
            }
        }
    }
}

/// A position where `f` holds with nothing after it is the last position.
pub proof fn lemma_last_pos_at<A>(s: Seq<A>, f: spec_fn(A) -> bool, p: int)
    requires
        -1 <= p < s.len(),
        p >= 0 ==> f(s[p]),
        forall|k: int| p < k < s.len() ==> !f(#[trigger] s[k]),
    ensures
        last_pos(s, f) == p,
{
    lemma_last_pos(s, f);
    let q = last_pos(s, f);
    if q < p {
        assert(!f(s[p]));
    } else if q > p {
        assert(!f(s[q]));
    }
}

/// When at most one element satisfies `f`, the count is 1 or 0 as the last
/// position is found or not.
pub proof fn lemma_count_unique<A>(s: Seq<A>, f: spec_fn(A) -> bool)
    requires
        forall|i: int, j: int| 0 <= i < s.len() && 0 <= j < s.len() && i != j && f(#[trigger] s[i]) ==> !f(#[trigger] s[j]),
    ensures
        count_where(s, f) == if last_pos(s, f) >= 0 { 1nat } else { 0nat },
    decreases s.len(),
{
    if s.len() > 0 {
        let t = s.drop_last();
        assert forall|i: int, j: int| 0 <= i < t.len() && 0 <= j < t.len() && i != j && f(#[trigger] t[i]) implies !f(#[trigger] t[j]) by {
            assert(t[i] == s[i] && t[j] == s[j]);
        }
        lemma_count_unique(t, f);
        lemma_last_pos(t, f);
        if f(s.last()) {
            let q = last_pos(t, f);
            if q >= 0 {
                assert(t[q] == s[q]);
                assert(f(s[q]));
                assert(!f(s[s.len() - 1]));
            }
        }
    }
}

/// In a well-formed store where storing `t` for `id` is allowed, no token
/// row but the one that `id` holds is `t` or belongs to `id`.
proof fn lemma_other_token(v: StoreView, id: u128, t: Seq<char>, j: int)
    requires
        wf(v),
        store_token_error(v, id, t) is None,
        0 <= j < v.tokens.len(),
        j != holder_pos(v, id),
    ensures
        v.tokens[j].token != t,
        v.tokens[j].subscriber_id != id,
{
    lemma_last_pos(v.tokens, has_token(t));
    lemma_last_pos(v.tokens, held_by(id));
    let h = holder_pos(v, id);
    if v.tokens[j].subscriber_id == id {
        assert(held_by(id)(v.tokens[j]));
        assert(h >= 0);
        assert(v.tokens[j].subscriber_id != v.tokens[h].subscriber_id);
    }
    if v.tokens[j].token == t {
        assert(has_token(t)(v.tokens[j]));
        let q = token_pos(v, t);
        assert(q >= 0);
        if j != q {
            assert(v.tokens[j].token != v.tokens[q].token);
        }
        assert(v.tokens[q].subscriber_id == id);
    }
}

/// Storing an allowed token keeps the store well formed.
pub proof fn lemma_store_token_wf(v: StoreView, id: u128, t: Seq<char>)
    requires
        wf(v),
        store_token_error(v, id, t) is None,
    ensures
        wf(after_store_token(v, id, t)),
{
    let w = after_store_token(v, id, t);
    lemma_last_pos(v.tokens, held_by(id));
    let h = holder_pos(v, id);
    let k = if h >= 0 { h } else { v.tokens.len() as int };
    assert(w.subscribers == v.subscribers);
    assert(w.tokens.len() == if h >= 0 { v.tokens.len() } else { v.tokens.len() + 1 });
    assert(w.tokens[k] == TokenRow { token: t, subscriber_id: id });
    assert forall|i: int| 0 <= i < w.tokens.len() && i != k implies #[trigger] w.tokens[i] == v.tokens[i] by {}
    assert forall|i: int, j: int|
        0 <= i < w.tokens.len() && 0 <= j < w.tokens.len() && i != j
        implies #[trigger] w.tokens[i].token != #[trigger] w.tokens[j].token
            && w.tokens[i].subscriber_id != w.tokens[j].subscriber_id by {
        if i != k && j != k {
            assert(w.tokens[i] == v.tokens[i] && w.tokens[j] == v.tokens[j]);
            assert(v.tokens[i].token != v.tokens[j].token);
        } else if i == k {
            assert(w.tokens[j] == v.tokens[j]);
            lemma_other_token(v, id, t, j);
        } else {
            assert(w.tokens[i] == v.tokens[i]);
            lemma_other_token(v, id, t, i);
        }
    }
    assert forall|i: int| 0 <= i < w.tokens.len() implies id_pos(w, #[trigger] w.tokens[i].subscriber_id) >= 0 by {
        if i != k {
            assert(w.tokens[i] == v.tokens[i]);
        }
    }
}

/// An upsert keeps the store well formed, and afterwards the email's row
/// carries the identifier that the upsert returns.
pub proof fn lemma_upsert(v: StoreView, name: Seq<char>, email: Seq<char>, candidate: u128, at: i64)
    requires
        wf(v),
    ensures
        wf(after_upsert(v, name, email, candidate, at)),
        upsert_outcome(v, email, candidate) matches Some(id) ==> {
            let u = after_upsert(v, name, email, candidate, at);
            &&& 0 <= email_pos(u, email) < u.subscribers.len()
            &&& u.subscribers[email_pos(u, email)].id == id
            &&& 0 <= id_pos(u, id) < u.subscribers.len()
        },
{
    let w = after_upsert(v, name, email, candidate, at);
    lemma_last_pos(v.subscribers, has_email(email));
    lemma_last_pos(v.subscribers, has_id(candidate));
    lemma_last_pos(w.subscribers, has_email(email));
    if email_pos(v, email) < 0 && id_pos(v, candidate) < 0 {
        assert forall|i: int| 0 <= i < w.tokens.len() implies id_pos(w, #[trigger] w.tokens[i].subscriber_id) >= 0 by {
            let id = w.tokens[i].subscriber_id;
            lemma_last_pos(v.subscribers, has_id(id));
            lemma_last_pos(w.subscribers, has_id(id));
            let q = id_pos(v, id);
            assert(w.subscribers[q] == v.subscribers[q]);
        }
        let n = v.subscribers.len() as int;
        assert(has_email(email)(w.subscribers[n]));
        assert(has_id(candidate)(w.subscribers[n]));
        lemma_last_pos(w.subscribers, has_id(candidate));
    } else if email_pos(v, email) >= 0 {
        let p = email_pos(v, email);
        assert(has_id(v.subscribers[p].id)(v.subscribers[p]));
        lemma_last_pos(v.subscribers, has_id(v.subscribers[p].id));
    }
}

/// Marking a subscriber confirmed keeps the store well formed, and changes
/// no identifier, email or token.
pub proof fn lemma_confirm(v: StoreView, id: u128)
    requires
        wf(v),
    ensures
        wf(after_confirm(v, id)),
        after_confirm(v, id).tokens == v.tokens,
        after_confirm(v, id).subscribers.len() == v.subscribers.len(),
        forall|i: int| 0 <= i < v.subscribers.len() ==>
            (#[trigger] after_confirm(v, id).subscribers[i]).id == v.subscribers[i].id
            && after_confirm(v, id).subscribers[i].email == v.subscribers[i].email,
{
    let w = after_confirm(v, id);
    lemma_last_pos(v.subscribers, has_id(id));
    assert forall|i: int| 0 <= i < w.tokens.len() implies id_pos(w, #[trigger] w.tokens[i].subscriber_id) >= 0 by {
        let sid = w.tokens[i].subscriber_id;
        assert(w.tokens[i] == v.tokens[i]);
        let q = id_pos(v, sid);
        assert(q >= 0);
        lemma_last_pos(v.subscribers, has_id(sid));
        lemma_last_pos(w.subscribers, has_id(sid));
        assert(w.subscribers[q].id == v.subscribers[q].id);
    }
}

/// Storing a new token for a subscriber replaces the one it held: the old
/// token no longer resolves, and the new one resolves to the subscriber.
pub proof fn lemma_token_replaced(v: StoreView, id: u128, t0: Seq<char>, t: Seq<char>)
    requires
        wf(v),
        resolved(v, t0) == Some(id),
        t0 != t,
        store_token_error(v, id, t) is None,
    ensures
        resolved(after_store_token(v, id, t), t0) is None,
        resolved(after_store_token(v, id, t), t) == Some(id),
{
    let w = after_store_token(v, id, t);
    lemma_store_token_wf(v, id, t);
    lemma_last_pos(v.tokens, has_token(t0));
    lemma_last_pos(v.tokens, held_by(id));
    let q0 = token_pos(v, t0);
    assert(held_by(id)(v.tokens[q0]));
    let h = holder_pos(v, id);
    if h != q0 {
        assert(v.tokens[h].token != v.tokens[q0].token);
    }
    assert(w.tokens == v.tokens.update(h, TokenRow { token: t, subscriber_id: id }));
    assert forall|k: int| -1 < k < w.tokens.len() implies !has_token(t0)(#[trigger] w.tokens[k]) by {
        if k != h {
            assert(w.tokens[k] == v.tokens[k]);
            if v.tokens[k].token == t0 {
                assert(v.tokens[k].token != v.tokens[q0].token);
            }
        }
    }
    lemma_last_pos_at(w.tokens, has_token(t0), -1);
    assert(has_token(t)(w.tokens[h]));
    lemma_last_pos(w.tokens, has_token(t));
    let q = token_pos(w, t);
    if q != h {
        assert(w.tokens[q].token != w.tokens[h].token);
    }
}

/// A stored subscriber.
pub struct SubscriberRecord {
    pub id: u128,
    pub email: String,
    pub name: String,
    pub subscribed_at: i64,
    pub status: Status,
}

impl View for SubscriberRecord {
    type V = SubscriberRow;

    open spec fn view(&self) -> SubscriberRow {
        SubscriberRow {
            id: self.id,
            email: self.email@,
            name: self.name@,
            subscribed_at: self.subscribed_at,
            status: self.status,
        }
    }
}

/// A stored token and the subscriber it belongs to.
pub struct TokenRecord {
    pub token: String,
    pub subscriber_id: u128,
}

impl View for TokenRecord {
    type V = TokenRow;

    open spec fn view(&self) -> TokenRow {
        TokenRow { token: self.token@, subscriber_id: self.subscriber_id }
    }
}

/// Subscriber and token rows, with the uniqueness rules of `wf`.
pub struct SubscriberStore {
    subscribers: Vec<SubscriberRecord>,
    tokens: Vec<TokenRecord>,
}

impl View for SubscriberStore {
    type V = StoreView;

    closed spec fn view(&self) -> StoreView {
        StoreView {
            subscribers: self.subscribers@.map_values(|r: SubscriberRecord| r@),
            tokens: self.tokens@.map_values(|t: TokenRecord| t@),
        }
    }
}

impl SubscriberStore {
    pub fn new() -> (r: SubscriberStore)
        ensures
            r@.subscribers.len() == 0,
            r@.tokens.len() == 0,
            wf(r@),
    {
        let r = SubscriberStore { subscribers: Vec::new(), tokens: Vec::new() };
        assert(r@.subscribers =~= Seq::<SubscriberRow>::empty());
        assert(r@.tokens =~= Seq::<TokenRow>::empty());
        r
    }

    fn find_email(&self, e: &str) -> (r: Option<usize>)
        ensures
            r matches Some(p) ==> p < self@.subscribers.len() && p as int == email_pos(self@, e@),
            r is None ==> email_pos(self@, e@) == -1,
    {
        let n = self.subscribers.len();
        let mut i = n;
        while i > 0
            invariant
                i <= n,
                n == self@.subscribers.len(),
                forall|k: int| i <= k < n ==> !has_email(e@)(#[trigger] self@.subscribers[k]),
            decreases i,
        {
            i -= 1;
            if same_text(self.subscribers[i].email.as_str(), e) {
                proof { lemma_last_pos_at(self@.subscribers, has_email(e@), i as int); }
                return Some(i);
            }
        }
        proof { lemma_last_pos_at(self@.subscribers, has_email(e@), -1); }
        None
    }

    fn find_id(&self, id: u128) -> (r: Option<usize>)
        ensures
            r matches Some(p) ==> p < self@.subscribers.len() && p as int == id_pos(self@, id),
            r is None ==> id_pos(self@, id) == -1,
    {
        let n = self.subscribers.len();
        let mut i = n;
        while i > 0
            invariant
                i <= n,
                n == self@.subscribers.len(),
                forall|k: int| i <= k < n ==> !has_id(id)(#[trigger] self@.subscribers[k]),
            decreases i,
        {
            i -= 1;
            if self.subscribers[i].id == id {
                proof { lemma_last_pos_at(self@.subscribers, has_id(id), i as int); }
                return Some(i);
            }
        }
        proof { lemma_last_pos_at(self@.subscribers, has_id(id), -1); }
        None
    }

    fn find_token(&self, t: &str) -> (r: Option<usize>)
        ensures
            r matches Some(p) ==> p < self@.tokens.len() && p as int == token_pos(self@, t@),
            r is None ==> token_pos(self@, t@) == -1,
    {
        let n = self.tokens.len();
        let mut i = n;
        while i > 0
            invariant
                i <= n,
                n == self@.tokens.len(),
                forall|k: int| i <= k < n ==> !has_token(t@)(#[trigger] self@.tokens[k]),
            decreases i,
        {
            i -= 1;
            if same_text(self.tokens[i].token.as_str(), t) {
                proof { lemma_last_pos_at(self@.tokens, has_token(t@), i as int); }
                return Some(i);
            }
        }
        proof { lemma_last_pos_at(self@.tokens, has_token(t@), -1); }
        None
    }

    fn find_holder(&self, id: u128) -> (r: Option<usize>)
        ensures
            r matches Some(p) ==> p < self@.tokens.len() && p as int == holder_pos(self@, id),
            r is None ==> holder_pos(self@, id) == -1,
    {
        let n = self.tokens.len();
        let mut i = n;
        while i > 0
            invariant
                i <= n,
                n == self@.tokens.len(),
                forall|k: int| i <= k < n ==> !held_by(id)(#[trigger] self@.tokens[k]),
            decreases i,
        {
            i -= 1;
            if self.tokens[i].subscriber_id == id {
                proof { lemma_last_pos_at(self@.tokens, held_by(id), i as int); }
                return Some(i);
            }
        }
        proof { lemma_last_pos_at(self@.tokens, held_by(id), -1); }
        None
    }

    /// Inserts a pending subscriber with identifier `candidate`, or, when the
    /// email is already stored, leaves every row as it is and returns the
    /// identifier of the stored row.
    pub fn insert_subscriber(
        &mut self,
        new_subscriber: &NewSubscriber,
        candidate: u128,
        subscribed_at: i64,
    ) -> (r: Result<u128, StorageError>)
        requires
            wf(old(self)@),
        ensures
            wf(final(self)@),
            final(self)@ == after_upsert(
                old(self)@,
                new_subscriber.name@,
                new_subscriber.email@,
                candidate,
                subscribed_at,
            ),
            match r {
                Ok(id) => upsert_outcome(old(self)@, new_subscriber.email@, candidate) == Some(id),
                Err(e) => upsert_outcome(old(self)@, new_subscriber.email@, candidate) is None
                    && e == StorageError::DuplicateId,
            },
    {
        let email = new_subscriber.email.as_str();
        match self.find_email(email) {
            Some(p) => Ok(self.subscribers[p].id),
            None => {
                if self.find_id(candidate).is_some() {
                    return Err(StorageError::DuplicateId);
                }
                let ghost v = self@;
                let rec = SubscriberRecord {
                    id: candidate,
                    email: String::from_str(email),
                    name: String::from_str(new_subscriber.name.as_str()),
                    subscribed_at,
                    status: Status::PendingConfirmation,
                };
                self.subscribers.push(rec);
                proof {
                    lemma_upsert(v, new_subscriber.name@, new_subscriber.email@, candidate, subscribed_at);
                    let w = after_upsert(v, new_subscriber.name@, new_subscriber.email@, candidate, subscribed_at);
                    assert(self@.subscribers =~= w.subscribers);
                    assert(self@.tokens =~= w.tokens);
                }
                Ok(candidate)
            },
        }
    }

    /// Makes `token` the live token of subscriber `id`, replacing the one it
    /// had. Refused when `id` is unknown or `token` is live for another
    /// subscriber.
    pub fn store_token(&mut self, id: u128, token: &SubscriptionToken) -> (r: Result<(), StorageError>)
        requires
            wf(old(self)@),
        ensures
            wf(final(self)@),
            final(self)@ == after_store_token(old(self)@, id, token@),
            match r {
                Ok(_) => store_token_error(old(self)@, id, token@) is None,
                Err(e) => store_token_error(old(self)@, id, token@) == Some(e),
            },
    {
        let ghost v = self@;
        let t = token.as_str();
        if self.find_id(id).is_none() {
            return Err(StorageError::UnknownSubscriber);
        }
        match self.find_token(t) {
            Some(p) => {
                if self.tokens[p].subscriber_id != id {
                    return Err(StorageError::DuplicateToken);
                }
            },
            None => {},
        }
        let rec = TokenRecord { token: String::from_str(t), subscriber_id: id };
        match self.find_holder(id) {
            Some(h) => {
                self.tokens.set(h, rec);
                proof {
                    lemma_store_token_wf(v, id, token@);
                    let w = after_store_token(v, id, token@);
                    assert(self@.tokens =~= w.tokens);
                    assert(self@.subscribers =~= w.subscribers);
                }
            },
            None => {
                self.tokens.push(rec);
                proof {
                    lemma_store_token_wf(v, id, token@);
                    let w = after_store_token(v, id, token@);
                    assert(self@.tokens =~= w.tokens);
                    assert(self@.subscribers =~= w.subscribers);
                }
            },
        }
        Ok(())
    }

    /// The subscriber that `token` belongs to, if any.
    pub fn resolve_token(&self, token: &SubscriptionToken) -> (r: Option<u128>)
        requires
            wf(self@),
        ensures
            r == resolved(self@, token@),
    {
        match self.find_token(token.as_str()) {
            Some(p) => Some(self.tokens[p].subscriber_id),
            None => None,
        }
    }

    /// Marks subscriber `id` confirmed; an unknown identifier changes nothing.
    pub fn confirm_subscriber(&mut self, id: u128)
        requires
            wf(old(self)@),
        ensures
            wf(final(self)@),
            final(self)@ == after_confirm(old(self)@, id),
    {
        let ghost v = self@;
        match self.find_id(id) {
            Some(p) => {
                let rec = SubscriberRecord {
                    id: self.subscribers[p].id,
                    email: self.subscribers[p].email.clone(),
                    name: self.subscribers[p].name.clone(),
                    subscribed_at: self.subscribers[p].subscribed_at,
                    status: Status::Confirmed,
                };
                self.subscribers.set(p, rec);
                proof {
                    lemma_confirm(v, id);
                    let w = after_confirm(v, id);
                    assert(self@.subscribers =~= w.subscribers);
                    assert(self@.tokens =~= w.tokens);
                }
            },
            None => {},
        }
    }

    /// A copy of the store to stage writes in; the writes take effect only
    /// when the copy replaces the store.
    pub fn begin(&self) -> (r: SubscriberStore)
        ensures
            r@ == self@,
    {
        let mut subscribers: Vec<SubscriberRecord> = Vec::new();
        let mut i: usize = 0;
        while i < self.subscribers.len()
            invariant
                i <= self.subscribers@.len(),
                subscribers@.len() == i,
                forall|k: int| 0 <= k < i ==> (#[trigger] subscribers@[k])@ == self.subscribers@[k]@,
            decreases self.subscribers@.len() - i,
        {
            let r = &self.subscribers[i];
            subscribers.push(SubscriberRecord {
                id: r.id,
                email: r.email.clone(),
                name: r.name.clone(),
                subscribed_at: r.subscribed_at,
                status: r.status,
            });
            i += 1;
        }
        let mut tokens: Vec<TokenRecord> = Vec::new();
        let mut j: usize = 0;
        while j < self.tokens.len()
            invariant
                j <= self.tokens@.len(),
                tokens@.len() == j,
                forall|k: int| 0 <= k < j ==> (#[trigger] tokens@[k])@ == self.tokens@[k]@,
            decreases self.tokens@.len() - j,
        {
            let t = &self.tokens[j];
            tokens.push(TokenRecord { token: t.token.clone(), subscriber_id: t.subscriber_id });
            j += 1;
        }
        let r = SubscriberStore { subscribers, tokens };
        assert(r@.subscribers =~= self@.subscribers);
        assert(r@.tokens =~= self@.tokens);
        r
    }

    /// The status of the subscriber with the given email.
    pub fn status_of(&self, email: &str) -> (r: Option<Status>)
        ensures
            r == status_of(self@, email@),
    {
        match self.find_email(email) {
            Some(p) => Some(self.subscribers[p].status),
            None => None,
        }
    }

    pub fn subscriber_count(&self) -> (r: usize)
        ensures
            r == self@.subscribers.len(),
    {
        self.subscribers.len()
    }

    pub fn token_count(&self) -> (r: usize)
        ensures
            r == self@.tokens.len(),
    {
        self.tokens.len()
    }
}

} // verus!
