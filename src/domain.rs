use vstd::prelude::*;
use vstd::string::*;

use rand::Rng;
use unicode_segmentation::UnicodeSegmentation;

verus! {

/// Number of occurrences of `c` in `s`.
pub open spec fn count_char(s: Seq<char>, c: char) -> nat
    decreases s.len(),
{
    if s.len() == 0 {
        0
    } else {
        count_char(s.drop_last(), c) + if s.last() == c {
            1nat
        } else {
            0nat
        }
    }
}

/// The characters that `char::is_whitespace` accepts: those with the
/// Unicode `White_Space` property.
pub open spec fn is_whitespace(c: char) -> bool {
    ('\u{9}' <= c && c <= '\u{d}') || c == ' ' || c == '\u{85}' || c == '\u{a0}' || c == '\u{1680}'
        || ('\u{2000}' <= c && c <= '\u{200a}') || c == '\u{2028}' || c == '\u{2029}'
        || c == '\u{202f}' || c == '\u{205f}' || c == '\u{3000}'
}

pub fn char_is_whitespace(c: char) -> (r: bool)
    ensures
        r == is_whitespace(c),
{
    ('\u{9}' <= c && c <= '\u{d}') || c == ' ' || c == '\u{85}' || c == '\u{a0}' || c == '\u{1680}'
        || ('\u{2000}' <= c && c <= '\u{200a}') || c == '\u{2028}' || c == '\u{2029}'
        || c == '\u{202f}' || c == '\u{205f}' || c == '\u{3000}'
}

/// A recipient address is well formed when it holds exactly one `@` with
/// text on both sides of it and no whitespace.
pub open spec fn is_valid_email(s: Seq<char>) -> bool {
    &&& s.len() >= 3
    &&& count_char(s, '@') == 1
    &&& s[0] != '@'
    &&& s.last() != '@'
    &&& forall|i: int| 0 <= i < s.len() ==> !is_whitespace(#[trigger] s[i])
}

pub fn valid_email(s: &str) -> (r: bool)
    ensures
        r == is_valid_email(s@),
{
    let n = s.unicode_len();
    if n < 3 {
        return false;
    }
    let mut ats: usize = 0;
    let mut i: usize = 0;
    while i < n
        invariant
            n == s@.len(),
            i <= n,
            ats as nat == count_char(s@.take(i as int), '@'),
            ats <= i,
            forall|j: int| 0 <= j < i ==> !is_whitespace(#[trigger] s@[j]),
        decreases n - i,
    {
        let c = s.get_char(i);
        assert(s@.take(i + 1).drop_last() =~= s@.take(i as int));
        if char_is_whitespace(c) {
            return false;
        }
        if c == '@' {
            ats = ats + 1;
        }
        i = i + 1;
    }
    assert(s@.take(n as int) =~= s@);
    ats == 1 && s.get_char(0) != '@' && s.get_char(n - 1) != '@'
}

/// A validated recipient address.
#[derive(Debug)]
pub struct SubscriberEmail(String);

impl View for SubscriberEmail {
    type V = Seq<char>;

    closed spec fn view(&self) -> Seq<char> {
        self.0@
    }
}

impl SubscriberEmail {
    pub fn parse(s: String) -> (r: Result<SubscriberEmail, String>)
        ensures
            match r {
                Ok(e) => is_valid_email(s@) && e@ == s@,
                Err(m) => !is_valid_email(s@) && m@ == s@ + " is not a valid subscriber email."@,
            },
    {
        if valid_email(s.as_str()) {
            Ok(SubscriberEmail(s))
        } else {
            Err(s.concat(" is not a valid subscriber email."))
        }
    }

    pub fn as_str(&self) -> (r: &str)
        ensures
            r@ == self@,
    {
        self.0.as_str()
    }
}

/// Number of extended grapheme clusters in `s`.
pub uninterp spec fn grapheme_count(s: Seq<char>) -> nat;

/// Relies on unicode-segmentation's `graphemes(true)`: the extended
/// grapheme clusters of the text, counted.
#[verifier::external_body]
fn count_graphemes(s: &str) -> (r: usize)
    ensures
        r == grapheme_count(s@),
{
    s.graphemes(true).count()
}

/// Longest accepted name, in grapheme clusters.
pub const MAX_NAME_GRAPHEMES: usize = 256;

pub open spec fn is_forbidden_name_char(c: char) -> bool {
    c == '/' || c == '(' || c == ')' || c == '"' || c == '<' || c == '>' || c == '\\' || c == '{' || c == '}'
}

/// A name is accepted when it holds something besides whitespace, is at
/// most 256 grapheme clusters long and holds none of `/()"<>\{}`.
pub open spec fn is_valid_name(s: Seq<char>, graphemes: nat) -> bool {
    &&& exists|i: int| 0 <= i < s.len() && !is_whitespace(#[trigger] s[i])
    &&& graphemes <= MAX_NAME_GRAPHEMES
    &&& forall|i: int| 0 <= i < s.len() ==> !is_forbidden_name_char(#[trigger] s[i])
}

/// A validated subscriber name.
#[derive(Debug)]
pub struct SubscriberName(String);

impl View for SubscriberName {
    type V = Seq<char>;

    closed spec fn view(&self) -> Seq<char> {
        self.0@
    }
}

impl SubscriberName {
    pub fn parse(s: String) -> (r: Result<SubscriberName, String>)
        ensures
            match r {
                Ok(n) => is_valid_name(s@, grapheme_count(s@)) && n@ == s@,
                Err(m) => !is_valid_name(s@, grapheme_count(s@)) && m@ == s@ + ", is not valid name"@,
            },
    {
        let graphemes = count_graphemes(s.as_str());
        SubscriberName::parse_counted(s, graphemes)
    }

    /// `parse` for a name whose grapheme clusters were already counted.
    pub fn parse_counted(s: String, graphemes: usize) -> (r: Result<SubscriberName, String>)
        ensures
            match r {
                Ok(n) => is_valid_name(s@, graphemes as nat) && n@ == s@,
                Err(m) => !is_valid_name(s@, graphemes as nat) && m@ == s@ + ", is not valid name"@,
            },
    {
        let n = s.as_str().unicode_len();
        let mut blank = true;
        let mut forbidden = false;
        let mut i: usize = 0;
        while i < n
            invariant
                n == s@.len(),
                i <= n,
                blank == forall|j: int| 0 <= j < i ==> is_whitespace(#[trigger] s@[j]),
                forbidden == exists|j: int| 0 <= j < i && is_forbidden_name_char(#[trigger] s@[j]),
            decreases n - i,
        {
            let c = s.as_str().get_char(i);
            if !char_is_whitespace(c) {
                blank = false;
            }
            if c == '/' || c == '(' || c == ')' || c == '"' || c == '<' || c == '>' || c == '\\' || c == '{' || c == '}' {
                forbidden = true;
            }
            proof {
                if !blank {
                    if forall|j: int| 0 <= j < i + 1 ==> is_whitespace(#[trigger] s@[j]) {
                        assert(is_whitespace(s@[i as int]));
                        assert(forall|j: int| 0 <= j < i ==> is_whitespace(#[trigger] s@[j]));
                    }
                }
                if forbidden && !is_forbidden_name_char(c) {
                    let j = choose|j: int| 0 <= j < i && is_forbidden_name_char(#[trigger] s@[j]);
                    assert(0 <= j < i + 1 && is_forbidden_name_char(s@[j]));
                }
                if is_forbidden_name_char(c) {
                    assert(is_forbidden_name_char(s@[i as int]));
                }
            }
            i = i + 1;
        }
        proof {
            if blank {
                assert(!exists|j: int| 0 <= j < s@.len() && !is_whitespace(#[trigger] s@[j]));
            }
            if forbidden {
                let j = choose|j: int| 0 <= j < n && is_forbidden_name_char(#[trigger] s@[j]);
                assert(!is_forbidden_name_char(s@[j]) == false);
            }
        }
        if blank || graphemes > MAX_NAME_GRAPHEMES || forbidden {
            Err(s.concat(", is not valid name"))
        } else {
            Ok(SubscriberName(s))
        }
    }

    pub fn as_str(&self) -> (r: &str)
        ensures
            r@ == self@,
    {
        self.0.as_str()
    }
}

/// A subscription request that passed validation.
#[derive(Debug)]
pub struct NewSubscriber {
    pub email: SubscriberEmail,
    pub name: SubscriberName,
}

/// The fields of a subscription form, as submitted.
#[derive(Clone, Debug)]
pub struct SubscribeFormData {
    pub name: String,
    pub email: String,
}

impl NewSubscriber {
    /// Validates the name, then the address; the first failure's message is
    /// returned.
    pub fn try_from(form: SubscribeFormData) -> (r: Result<NewSubscriber, String>)
        ensures
            match r {
                Ok(sub) => {
                    &&& is_valid_name(form.name@, grapheme_count(form.name@))
                    &&& is_valid_email(form.email@)
                    &&& sub.name@ == form.name@
                    &&& sub.email@ == form.email@
                },
                Err(m) => if !is_valid_name(form.name@, grapheme_count(form.name@)) {
                    m@ == form.name@ + ", is not valid name"@
                } else {
                    !is_valid_email(form.email@) && m@ == form.email@ + " is not a valid subscriber email."@
                },
            },
    {
        let name = SubscriberName::parse(form.name)?;
        let email = SubscriberEmail::parse(form.email)?;
        Ok(NewSubscriber { email, name })
    }
}

pub open spec fn is_ascii_alphanumeric(c: char) -> bool {
    ('A' <= c && c <= 'Z') || ('a' <= c && c <= 'z') || ('0' <= c && c <= '9')
}

/// Relies on rand's `Alphanumeric` distribution drawn from `thread_rng`:
/// one character picked from `A-Z`, `a-z` and `0-9`.
#[verifier::external_body]
pub(crate) fn random_alphanumeric() -> (r: String)
    ensures
        r@.len() == 1,
        is_ascii_alphanumeric(r@[0]),
{
    char::from(rand::thread_rng().sample(rand::distributions::Alphanumeric)).to_string()
}

/// Length of a subscription token.
pub const TOKEN_LEN: usize = 20;

/// A fresh random subscription token: 20 ASCII letters and digits.
pub fn generate_subs_token() -> (r: String)
    ensures
        r@.len() == TOKEN_LEN,
        forall|i: int| 0 <= i < r@.len() ==> is_ascii_alphanumeric(#[trigger] r@[i]),
{
    let mut token = String::new();
    let mut i: usize = 0;
    while i < TOKEN_LEN
        invariant
            i <= TOKEN_LEN,
            token@.len() == i,
            forall|j: int| 0 <= j < token@.len() ==> is_ascii_alphanumeric(#[trigger] token@[j]),
        decreases TOKEN_LEN - i,
    {
        let piece = random_alphanumeric();
        let ghost prev = token@;
        token.append(piece.as_str());
        assert(token@ == prev + piece@);
        assert(token@[i as int] == piece@[0]);
        i = i + 1;
    }
    token
}

/// The email that asks a new subscriber to confirm.
#[derive(Clone, Debug)]
pub struct ConfirmationEmail {
    pub subject: String,
    pub html_body: String,
    pub plain_body: String,
}

pub open spec fn confirmation_link_of(base_url: Seq<char>, token: Seq<char>) -> Seq<char> {
    base_url + "/subscribe/confirm?subscription_token="@ + token
}

pub open spec fn confirmation_body_of(link: Seq<char>) -> Seq<char> {
    "Hello<br />Click <a href=\""@ + link + "\"> here</a> to confirm"@
}

/// The link that confirms the subscription holding `token`.
pub fn confirmation_link(base_url: &str, token: &str) -> (r: String)
    ensures
        r@ == confirmation_link_of(base_url@, token@),
{
    let mut link = String::from_str(base_url);
    link.append("/subscribe/confirm?subscription_token=");
    link.append(token);
    link
}

/// The confirmation email for the subscription holding `token`.
pub fn confirmation_email(base_url: &str, token: &str) -> (r: ConfirmationEmail)
    ensures
        r.subject@ == "hello"@,
        r.html_body@ == confirmation_body_of(confirmation_link_of(base_url@, token@)),
        r.plain_body@ == r.html_body@,
{
    let link = confirmation_link(base_url, token);
    let mut body = String::from_str("Hello<br />Click <a href=\"");
    body.append(link.as_str());
    body.append("\"> here</a> to confirm");
    let plain_body = body.clone();
    ConfirmationEmail { subject: String::from_str("hello"), html_body: body, plain_body }
}

/// What the confirmation endpoint does once the token was looked up.
#[derive(Clone, Copy, Debug, PartialEq, Eq, Structural)]
pub enum ConfirmStep {
    /// Answer with this status and stop.
    Respond(u16),
    /// Mark this subscriber as confirmed, then answer with
    /// `confirmation_status`.
    Confirm(u128),
}

/// Decides from the token lookup (`Err` when the lookup failed, `Ok(None)`
/// for an unknown token): a failed lookup is a server error, an unknown
/// token is unauthorized, a known one is confirmed.
pub fn confirm_step(lookup: Result<Option<u128>, ()>) -> (r: ConfirmStep)
    ensures
        r == match lookup {
            Err(_) => ConfirmStep::Respond(500),
            Ok(None) => ConfirmStep::Respond(401),
            Ok(Some(id)) => ConfirmStep::Confirm(id),
        },
{
    match lookup {
        Err(_) => ConfirmStep::Respond(500),
        Ok(None) => ConfirmStep::Respond(401),
        Ok(Some(id)) => ConfirmStep::Confirm(id),
    }
}

/// The answer once the subscriber was marked confirmed, or not.
pub fn confirmation_status(confirmed: bool) -> (r: u16)
    ensures
        r == if confirmed {
            200u16
        } else {
            500u16
        },
{
    if confirmed {
        200
    } else {
        500
    }
}

} // verus!
