//! Validated value types: subscriber names, email addresses and
//! subscription tokens.
use vstd::prelude::*;
use vstd::string::*;
use rand::Rng;
use unicode_segmentation::UnicodeSegmentation;

verus! {

/// Longest accepted subscriber name, counted in extended grapheme clusters.
pub const MAX_NAME_LEN: usize = 256;

/// Length of every freshly generated subscription token.
pub const TOKEN_LEN: usize = 25;

/// Unicode `White_Space`, the property that `char::is_whitespace` tests.
pub open spec fn is_space(c: char) -> bool {
    let u = c as u32;
    (0x09 <= u && u <= 0x0D) || u == 0x20 || u == 0x85 || u == 0xA0 || u == 0x1680
        || (0x2000 <= u && u <= 0x200A) || u == 0x2028 || u == 0x2029 || u == 0x202F
        || u == 0x205F || u == 0x3000
}

/// Unicode general category `Cc`, the property that `char::is_control` tests.
pub open spec fn is_control(c: char) -> bool {
    let u = c as u32;
    u <= 0x1F || (0x7F <= u && u <= 0x9F)
}

/// Markup-significant characters that may not appear in a name.
pub open spec fn is_forbidden(c: char) -> bool {
    c == '/' || c == '(' || c == ')' || c == '"' || c == '<' || c == '>' || c == '\\'
        || c == '{' || c == '}'
}

pub open spec fn ascii_alphanumeric(c: char) -> bool {
    ('a' <= c && c <= 'z') || ('A' <= c && c <= 'Z') || ('0' <= c && c <= '9')
}

/// Whether `char::is_alphanumeric` holds of a character.
pub uninterp spec fn is_alnum(c: char) -> bool;

/// The number of extended grapheme clusters in a string.
pub uninterp spec fn grapheme_count_of(s: Seq<char>) -> nat;

/// Whether validator's email check accepts a string.
pub uninterp spec fn valid_email(s: Seq<char>) -> bool;

/// A name is accepted when it is not blank, not too long, and holds no
/// control or forbidden character.
pub open spec fn valid_name(s: Seq<char>) -> bool {
    &&& exists|i: int| 0 <= i < s.len() && !is_space(#[trigger] s[i])
    &&& grapheme_count_of(s) <= MAX_NAME_LEN
    &&& forall|i: int| 0 <= i < s.len() ==> !is_forbidden(#[trigger] s[i]) && !is_control(s[i])
}

/// Every character is an ASCII letter or digit.
pub open spec fn ascii_alphanumeric_text(s: Seq<char>) -> bool {
    forall|i: int| 0 <= i < s.len() ==> ascii_alphanumeric(#[trigger] s[i])
}

/// Some character is ASCII but neither a letter nor a digit.
pub open spec fn has_ascii_symbol(s: Seq<char>) -> bool {
    exists|i: int| 0 <= i < s.len() && (s[i] as u32) < 0x80 && !ascii_alphanumeric(#[trigger] s[i])
}

pub open spec fn name_error(s: Seq<char>) -> Seq<char> {
    s + " is not a valid subscriber name."@
}

pub open spec fn email_error(s: Seq<char>) -> Seq<char> {
    s + " is not a valid subscriber email."@
}

pub open spec fn token_error() -> Seq<char> {
    "Subscription token is alphanumeric."@
}

/// A token is accepted when every character is alphanumeric.
pub open spec fn valid_token(s: Seq<char>) -> bool {
    forall|i: int| 0 <= i < s.len() ==> is_alnum(#[trigger] s[i])
}

pub fn is_space_char(c: char) -> (r: bool)
    ensures
        r == is_space(c),
{
    let u = c as u32;
    (0x09 <= u && u <= 0x0D) || u == 0x20 || u == 0x85 || u == 0xA0 || u == 0x1680
        || (0x2000 <= u && u <= 0x200A) || u == 0x2028 || u == 0x2029 || u == 0x202F
        || u == 0x205F || u == 0x3000
}

pub fn is_control_char(c: char) -> (r: bool)
    ensures
        r == is_control(c),
{
    let u = c as u32;
    u <= 0x1F || (0x7F <= u && u <= 0x9F)
}

pub fn is_forbidden_char(c: char) -> (r: bool)
    ensures
        r == is_forbidden(c),
{
    c == '/' || c == '(' || c == ')' || c == '"' || c == '<' || c == '>' || c == '\\'
        || c == '{' || c == '}'
}

/// Relies on `char::is_alphanumeric`; on ASCII it accepts exactly letters and digits.
#[verifier::external_body]
fn alphanumeric(c: char) -> (r: bool)
    ensures
        r == is_alnum(c),
        (c as u32) < 0x80 ==> (r <==> ascii_alphanumeric(c)),
{
    c.is_alphanumeric()
}

/// Relies on unicode-segmentation's `graphemes(true)`: the number of extended
/// grapheme clusters, each a non-empty run of characters.
#[verifier::external_body]
fn grapheme_count(s: &str) -> (r: usize)
    ensures
        r == grapheme_count_of(s@),
        r <= s@.len(),
{
    s.graphemes(true).count()
}

/// Relies on `validator::validate_email`, which rejects any string without an `@`.
#[verifier::external_body]
fn email_check(s: &str) -> (r: bool)
    ensures
        r == valid_email(s@),
        !s@.contains('@') ==> !r,
{
    validator::validate_email(s)
}

/// Relies on rand's `Alphanumeric` distribution, which draws ASCII letters and digits.
#[verifier::external_body]
fn random_alphanumeric(n: usize) -> (r: String)
    ensures
        r@.len() == n,
        forall|i: int| 0 <= i < n ==> ascii_alphanumeric(#[trigger] r@[i]),
{
    rand::thread_rng().sample_iter(&rand::distributions::Alphanumeric).take(n).map(char::from).collect()
}

/// A subscriber's name, as it was given.
pub struct SubscriberName {
    value: String,
}

impl View for SubscriberName {
    type V = Seq<char>;

    closed spec fn view(&self) -> Seq<char> {
        self.value@
    }
}

impl SubscriberName {
    /// Accepts `s` unchanged when `valid_name` holds of it.
    pub fn parse(s: String) -> (r: Result<SubscriberName, String>)
        ensures
            r is Ok <==> valid_name(s@),
            r matches Ok(n) ==> n@ == s@,
            r matches Err(m) ==> m@ == name_error(s@),
    {
        let n = s.as_str().unicode_len();
        let mut blank = true;
        let mut i: usize = 0;
        while i < n
            invariant
                n == s@.len(),
                i <= n,
                blank <==> forall|j: int| 0 <= j < i ==> is_space(#[trigger] s@[j]),
                forall|j: int| 0 <= j < i ==> !is_forbidden(#[trigger] s@[j]) && !is_control(s@[j]),
            decreases n - i,
        {
            let c = s.as_str().get_char(i);
            if is_forbidden_char(c) || is_control_char(c) {
                return Err(format_name_error(&s));
            }
            if !is_space_char(c) {
                blank = false;
            }
            i += 1;
        }
        let graphemes = grapheme_count(s.as_str());
        if blank || graphemes > MAX_NAME_LEN {
            assert(!valid_name(s@)) by {
                if !blank {
                    assert(!(forall|j: int| 0 <= j < n ==> is_space(#[trigger] s@[j])));
                }
            }
            return Err(format_name_error(&s));
        }
        assert(valid_name(s@)) by {
            let k = choose|j: int| 0 <= j < n && !is_space(#[trigger] s@[j]);
            assert(!is_space(s@[k]));
        }
        Ok(SubscriberName { value: s })
    }

    pub fn as_str(&self) -> (r: &str)
        ensures
            r@ == self@,
    {
        self.value.as_str()
    }
}

fn format_name_error(s: &String) -> (r: String)
    ensures
        r@ == name_error(s@),
{
    let mut m = s.clone();
    m.append(" is not a valid subscriber name.");
    m
}

/// A subscriber's email address, accepted by the mailbox grammar check.
pub struct SubscriberEmail {
    value: String,
}

impl View for SubscriberEmail {
    type V = Seq<char>;

    closed spec fn view(&self) -> Seq<char> {
        self.value@
    }
}

impl SubscriberEmail {
    /// Accepts `s` unchanged when the mailbox grammar check accepts it.
    pub fn parse(s: String) -> (r: Result<SubscriberEmail, String>)
        ensures
            r is Ok <==> valid_email(s@),
            r matches Ok(e) ==> e@ == s@,
            r matches Err(m) ==> m@ == email_error(s@),
            !s@.contains('@') ==> r is Err,
    {
        if email_check(s.as_str()) {
            Ok(SubscriberEmail { value: s })
        } else {
            let mut m = s.clone();
            m.append(" is not a valid subscriber email.");
            Err(m)
        }
    }

    pub fn as_str(&self) -> (r: &str)
        ensures
            r@ == self@,
    {
        self.value.as_str()
    }
}

/// A bearer credential that links a pending subscription to its subscriber.
pub struct SubscriptionToken(String);

impl View for SubscriptionToken {
    type V = Seq<char>;

    closed spec fn view(&self) -> Seq<char> {
        self.0@
    }
}

impl SubscriptionToken {
    /// Accepts `s` unchanged when every character of it is alphanumeric.
    pub fn parse(s: String) -> (r: Result<SubscriptionToken, String>)
        ensures
            r is Ok <==> valid_token(s@),
            r matches Ok(t) ==> t@ == s@,
            r matches Err(m) ==> m@ == token_error(),
            ascii_alphanumeric_text(s@) ==> r is Ok,
            has_ascii_symbol(s@) ==> r is Err,
    {
        let n = s.as_str().unicode_len();
        let mut i: usize = 0;
        while i < n
            invariant
                n == s@.len(),
                i <= n,
                forall|j: int| 0 <= j < i ==> is_alnum(#[trigger] s@[j])
                    && ((s@[j] as u32) < 0x80 ==> ascii_alphanumeric(s@[j])),
            decreases n - i,
        {
            let c = s.as_str().get_char(i);
            if !alphanumeric(c) {
                return Err(String::from_str("Subscription token is alphanumeric."));
            }
            i += 1;
        }
        Ok(SubscriptionToken(s))
    }

    /// A fresh random token of `TOKEN_LEN` ASCII letters and digits.
    pub fn generate() -> (r: SubscriptionToken)
        ensures
            r@.len() == TOKEN_LEN,
            forall|i: int| 0 <= i < TOKEN_LEN ==> ascii_alphanumeric(#[trigger] r@[i]),
            valid_token(r@),
    {
        let s = random_alphanumeric(TOKEN_LEN);
        // Each drawn character is put through the alphanumeric test once, which
        // is what establishes that the token parses.
        let mut i: usize = 0;
        while i < TOKEN_LEN
            invariant
                s@.len() == TOKEN_LEN,
                i <= TOKEN_LEN,
                forall|k: int| 0 <= k < TOKEN_LEN ==> ascii_alphanumeric(#[trigger] s@[k]),
                forall|j: int| 0 <= j < i ==> is_alnum(#[trigger] s@[j]),
            decreases TOKEN_LEN - i,
        {
            let c = s.as_str().get_char(i);
            assert(ascii_alphanumeric(s@[i as int]));
            let ok = alphanumeric(c);
            assert(ok);
            i += 1;
        }
        SubscriptionToken(s)
    }

    pub fn as_str(&self) -> (r: &str)
        ensures
            r@ == self@,
    {
        self.0.as_str()
    }
}

/// The raw fields of a subscription request.
pub struct FormData {
    pub email: String,
    pub name: String,
}

/// A validated subscription request.
pub struct NewSubscriber {
    pub email: SubscriberEmail,
    pub name: SubscriberName,
}

impl NewSubscriber {
    /// Validates the name first, then the email.
    pub fn parse_form(form: FormData) -> (r: Result<NewSubscriber, String>)
        ensures
            r is Ok <==> valid_name(form.name@) && valid_email(form.email@),
            r matches Ok(n) ==> n.name@ == form.name@ && n.email@ == form.email@,
            r matches Err(m) ==> m@ == (if !valid_name(form.name@) {
                name_error(form.name@)
            } else {
                email_error(form.email@)
            }),
    {
        let name = match SubscriberName::parse(form.name) {
            Ok(n) => n,
            Err(e) => return Err(e),
        };
        let email = match SubscriberEmail::parse(form.email) {
            Ok(e) => e,
            Err(e) => return Err(e),
        };
        Ok(NewSubscriber { email, name })
    }
}

/// Character-by-character equality of two strings.
pub fn same_text(a: &str, b: &str) -> (r: bool)
    ensures
        r == (a@ == b@),
{
    let n = a.unicode_len();
    if n != b.unicode_len() {
        return false;
    }
    let mut i: usize = 0;
    while i < n
        invariant
            n == a@.len(),
            n == b@.len(),
            i <= n,
            forall|j: int| 0 <= j < i ==> a@[j] == b@[j],
        decreases n - i,
    {
        if a.get_char(i) != b.get_char(i) {
            return false;
        }
        i += 1;
    }
    assert(a@ =~= b@);
    true
}

} // verus!
