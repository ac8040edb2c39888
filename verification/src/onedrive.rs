//! What a client for OneDrive decides and computes.
//!
//! The client gets its access token from the token service, by a refresh
//! token that it keeps in the store or by a code that the user put there.
//! Here are the requests it sends, the reading of the answer, and the
//! choice of the next step. Nothing here talks to the network.

use crate::binary::{is_marked, marker, reads_back};
use crate::document::{child, find, lemma_field_found, lemma_field_missing, Doc, Node};
use crate::text::{document_of, parse_document};
use crate::value::ValueView;
use vstd::prelude::*;
use vstd::string::*;

verus! {

/// What the client knows of its access: what the token service last
/// answered, as far as the answer was taken in.
#[derive(Debug, PartialEq, Eq)]
pub struct Token {
    pub user_id: String,
    pub expires_in: u32,
    pub access_token: String,
    pub refresh_token: String,
}

/// What a [`Token`] is, as contracts speak of it.
pub struct TokenView {
    pub user_id: Seq<char>,
    pub expires_in: u32,
    pub access_token: Seq<char>,
    pub refresh_token: Seq<char>,
}

impl View for Token {
    type V = TokenView;

    open spec fn view(&self) -> TokenView {
        TokenView {
            user_id: self.user_id@,
            expires_in: self.expires_in,
            access_token: self.access_token@,
            refresh_token: self.refresh_token@,
        }
    }
}

impl TokenView {
    /// The token after the answer `doc` was taken in: `user_id`,
    /// `expires_in`, `access_token` and `refresh_token` are taken in this
    /// order, up to the first that the answer does not hold.
    pub open spec fn answered(self, doc: Doc) -> TokenView {
        match text_at(doc, "user_id"@) {
            None => self,
            Some(user_id) => match count_at(doc, "expires_in"@) {
                None => TokenView { user_id, ..self },
                Some(expires_in) => match text_at(doc, "access_token"@) {
                    None => TokenView { user_id, expires_in, ..self },
                    Some(access_token) => match text_at(doc, "refresh_token"@) {
                        None => TokenView { user_id, expires_in, access_token, ..self },
                        Some(refresh_token) => TokenView {
                            user_id,
                            expires_in,
                            access_token,
                            refresh_token,
                        },
                    },
                },
            },
        }
    }
}

/// The next step on the way to an access token.
#[derive(Debug, PartialEq, Eq)]
pub enum Access {
    /// Send this request, made of the refresh token. Its answer holds the
    /// token.
    Refresh(String),
    /// Take the code out of the store and send this request, made of the
    /// code. Its answer holds the token; where there is none, the user has
    /// to authorize anew.
    Redeem(String),
    /// Put this address under `CODE_KEY`: the user gets a code there and
    /// puts it in its place.
    Authorize(String),
}

/// What an [`Access`] is, as contracts speak of it.
pub enum AccessView {
    Refresh(Seq<char>),
    Redeem(Seq<char>),
    Authorize(Seq<char>),
}

impl View for Access {
    type V = AccessView;

    open spec fn view(&self) -> AccessView {
        match self {
            Access::Refresh(body) => AccessView::Refresh(body@),
            Access::Redeem(body) => AccessView::Redeem(body@),
            Access::Authorize(url) => AccessView::Authorize(url@),
        }
    }
}

/// The key under which the refresh token is kept.
pub const REFRESH_TOKEN_KEY: &'static str = "onedrive.refresh_token";

/// The key under which the user puts the code, and finds where to get one.
pub const CODE_KEY: &'static str = "onedrive.code";

/// The address to which the service sends the user back, escaped.
pub open spec fn redirect_uri() -> Seq<char> {
    "https%3A%2F%2Flogin.live.com%2Foauth20_desktop.srf"@
}

/// The request that redeems a code.
pub open spec fn code_request_text(client_id: Seq<char>, code: Seq<char>) -> Seq<char> {
    "client_id="@ + client_id + "&redirect_uri="@ + redirect_uri()
        + "&grant_type=authorization_code&code="@ + code
}

/// The request that uses a refresh token.
pub open spec fn refresh_request_text(client_id: Seq<char>, refresh_token: Seq<char>) -> Seq<
    char,
> {
    "client_id="@ + client_id + "&redirect_uri="@ + redirect_uri() + "&refresh_token="@
        + refresh_token + "&grant_type=refresh_token"@
}

/// The address at which the user authorizes the client.
pub open spec fn authorize_url_text(client_id: Seq<char>) -> Seq<char> {
    "https://login.live.com/oauth20_authorize.srf?client_id="@ + client_id
        + "&scope=onedrive.readwrite%20offline_access&response_type=code&redirect_uri="@
        + redirect_uri()
}

/// The string under `name` in an object.
pub open spec fn text_at(doc: Doc, name: Seq<char>) -> Option<Seq<char>> {
    match child(doc.fields(), name) {
        Some(Doc::Str(s)) => Some(s),
        _ => None,
    }
}

/// The number under `name` in an object, where it is a `u32`.
pub open spec fn count_at(doc: Doc, name: Seq<char>) -> Option<u32> {
    match child(doc.fields(), name) {
        Some(Doc::Number(n)) => n.spec_as_u32(),
        _ => None,
    }
}

/// Whether the answer `doc` holds all that a token is made of.
pub open spec fn has_token(doc: Doc) -> bool {
    &&& text_at(doc, "user_id"@) is Some
    &&& count_at(doc, "expires_in"@) is Some
    &&& text_at(doc, "access_token"@) is Some
    &&& text_at(doc, "refresh_token"@) is Some
}

/// The request that redeems a code.
pub fn code_request(client_id: &str, code: &str) -> (body: String)
    ensures
        body@ == code_request_text(client_id@, code@),
{
    let mut body = String::from_str("client_id=");
    body.append(client_id);
    body.append("&redirect_uri=");
    body.append("https%3A%2F%2Flogin.live.com%2Foauth20_desktop.srf");
    body.append("&grant_type=authorization_code&code=");
    body.append(code);
    body
}

/// The request that uses a refresh token.
pub fn refresh_request(client_id: &str, refresh_token: &str) -> (body: String)
    ensures
        body@ == refresh_request_text(client_id@, refresh_token@),
{
    let mut body = String::from_str("client_id=");
    body.append(client_id);
    body.append("&redirect_uri=");
    body.append("https%3A%2F%2Flogin.live.com%2Foauth20_desktop.srf");
    body.append("&refresh_token=");
    body.append(refresh_token);
    body.append("&grant_type=refresh_token");
    body
}

/// The address at which the user authorizes the client. It is no string in
/// the form in which bytes are kept.
pub fn authorize_url(client_id: &str) -> (url: String)
    ensures
        url@ == authorize_url_text(client_id@),
        reads_back(ValueView::String(url@)),
{
    let mut url = String::from_str("https://login.live.com/oauth20_authorize.srf?client_id=");
    proof {
        reveal_strlit("https://login.live.com/oauth20_authorize.srf?client_id=");
        assert(url@[0] == 'h');
    }
    url.append(client_id);
    url.append("&scope=onedrive.readwrite%20offline_access&response_type=code&redirect_uri=");
    url.append("https%3A%2F%2Flogin.live.com%2Foauth20_desktop.srf");
    proof {
        assert(url@[0] == 'h');
        assert(marker()[0] == 'b');
        assert(!is_marked(url@));
    }
    url
}

/// The string under `name`, where `doc` is an object that has one there.
pub fn field_text(doc: &Node, name: &str) -> (text: Option<String>)
    requires
        doc@.wf(),
    ensures
        match text {
            Some(s) => text_at(doc@, name@) == Some(s@),
            None => text_at(doc@, name@) is None,
        },
{
    match doc {
        Node::Object(fields) => {
            match find(fields, &String::from_str(name)) {
                Some(k) => {
                    proof {
                        lemma_field_found(doc@.fields(), name@, k as int);
                        assert(doc@.fields()[k as int].1 == fields[k as int].1@);
                    }
                    match &fields[k].1 {
                        Node::Str(s) => Some(s.clone()),
                        _ => None,
                    }
                },
                None => {
                    proof {
                        lemma_field_missing(doc@.fields(), name@);
                    }
                    None
                },
            }
        },
        _ => {
            proof {
                lemma_field_missing(doc@.fields(), name@);
            }
            None
        },
    }
}

/// The number under `name`, where `doc` is an object that has one there
/// and it is a `u32`.
pub fn field_count(doc: &Node, name: &str) -> (count: Option<u32>)
    requires
        doc@.wf(),
    ensures
        count == count_at(doc@, name@),
{
    match doc {
        Node::Object(fields) => {
            match find(fields, &String::from_str(name)) {
                Some(k) => {
                    proof {
                        lemma_field_found(doc@.fields(), name@, k as int);
                        assert(doc@.fields()[k as int].1 == fields[k as int].1@);
                    }
                    match &fields[k].1 {
                        Node::Number(n) => n.as_u32(),
                        _ => None,
                    }
                },
                None => {
                    proof {
                        lemma_field_missing(doc@.fields(), name@);
                    }
                    None
                },
            }
        },
        _ => {
            proof {
                lemma_field_missing(doc@.fields(), name@);
            }
            None
        },
    }
}

impl Token {
    /// The token of a client that has this refresh token and nothing else
    /// yet.
    pub fn new(refresh_token: String) -> (token: Token)
        ensures
            token@ == (TokenView {
                user_id: Seq::empty(),
                expires_in: 0,
                access_token: Seq::empty(),
                refresh_token: refresh_token@,
            }),
    {
        Token { user_id: String::new(), expires_in: 0, access_token: String::new(), refresh_token }
    }

    /// Takes in the document that the service answered.
    ///
    /// The answer holds a token where it is an object with the strings
    /// `user_id`, `access_token` and `refresh_token` and the number
    /// `expires_in`. Where it holds none, what stands in it before the
    /// first that is missing is taken in all the same.
    pub fn update(&mut self, doc: &Node) -> (res: Result<(), ()>)
        requires
            doc@.wf(),
        ensures
            final(self)@ == old(self)@.answered(doc@),
            res is Ok <==> has_token(doc@),
    {
        match field_text(doc, "user_id") {
            Some(s) => {
                self.user_id = s;
            },
            None => {
                return Err(());
            },
        }
        match field_count(doc, "expires_in") {
            Some(n) => {
                self.expires_in = n;
            },
            None => {
                return Err(());
            },
        }
        match field_text(doc, "access_token") {
            Some(s) => {
                self.access_token = s;
            },
            None => {
                return Err(());
            },
        }
        match field_text(doc, "refresh_token") {
            Some(s) => {
                self.refresh_token = s;
            },
            None => {
                return Err(());
            },
        }
        Ok(())
    }
}

/// Takes in the text that the service answered. A text that is no JSON
/// leaves the token as it is.
pub fn parse_token_response(token: &mut Token, text: &str) -> (res: Result<(), ()>)
    ensures
        match document_of(text@) {
            Some(doc) => final(token)@ == old(token)@.answered(doc) && (res is Ok <==> has_token(
                doc,
            )),
            None => final(token)@ == old(token)@ && res is Err,
        },
{
    match parse_document(text) {
        Ok(doc) => token.update(&doc),
        Err(_) => Err(()),
    }
}

/// Chooses the next step on the way to an access token, given the refresh
/// token that the client has and the string that the store holds under
/// `CODE_KEY`, if it holds one.
///
/// With a refresh token the step is to use it. Without one, a code that
/// the user put in the store is redeemed. Without either, the user has to
/// authorize first.
pub fn plan_access(client_id: &str, refresh_token: &str, code: Option<&str>) -> (step: Access)
    ensures
        step@ == if refresh_token@.len() > 0 {
            AccessView::Refresh(refresh_request_text(client_id@, refresh_token@))
        } else {
            match code {
                Some(code) if code@.len() > 0 => AccessView::Redeem(
                    code_request_text(client_id@, code@),
                ),
                _ => AccessView::Authorize(authorize_url_text(client_id@)),
            }
        },
{
    if !refresh_token.is_empty() {
        return Access::Refresh(refresh_request(client_id, refresh_token));
    }
    match code {
        Some(code) => {
            if !code.is_empty() {
                return Access::Redeem(code_request(client_id, code));
            }
        },
        None => {},
    }
    Access::Authorize(authorize_url(client_id))
}

} // verus!
