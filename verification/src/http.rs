//! HTTP requests as plain values, and which replies count as success.
use vstd::prelude::*;

verus! {

/// Request method.
#[derive(Clone, Copy, Debug, PartialEq, Eq, Structural)]
pub enum Method {
    Get,
    Post,
    Put,
    Delete,
}

/// Request body.
#[derive(Debug)]
pub enum Body {
    Empty,
    /// Form fields, in order.
    Form(Vec<(String, String)>),
    /// A JSON object with the one field `title`.
    Title(String),
}

#[verifier::ext_equal]
pub enum BodyView {
    Empty,
    Form(Seq<(Seq<char>, Seq<char>)>),
    Title(Seq<char>),
}

impl DeepView for Body {
    type V = BodyView;

    open spec fn deep_view(&self) -> BodyView {
        match self {
            Body::Empty => BodyView::Empty,
            Body::Form(fields) => BodyView::Form(fields.deep_view()),
            Body::Title(title) => BodyView::Title(title@),
        }
    }
}

/// What the reply to a request is needed for.
#[derive(Clone, Copy, Debug, PartialEq, Eq, Structural)]
pub enum Expect {
    /// The text of a login reply.
    Login,
    /// The text of a write token.
    Token,
    /// Success alone.
    Done,
    /// A subscription list.
    Subscriptions,
    /// A page of item ids.
    Ids,
    /// A page of items.
    Contents,
    /// The list of categories.
    Categories,
}

impl Expect {
    /// A login succeeds with a status of the 200 range; any other request
    /// unless the status reports an error of the client or the server.
    pub open spec fn takes(self, status: u16) -> bool {
        if self == Expect::Login {
            200 <= status < 300
        } else {
            !(400 <= status < 600)
        }
    }

    /// Decides whether a reply with this status is one to read.
    pub fn accepts(self, status: u16) -> (r: bool)
        ensures
            r == self.takes(status),
    {
        match self {
            Expect::Login => 200 <= status && status < 300,
            _ => !(400 <= status && status < 600),
        }
    }
}

/// A request to be sent.
#[derive(Debug)]
pub struct Request {
    pub method: Method,
    pub url: String,
    pub headers: Vec<(String, String)>,
    pub query: Vec<(String, String)>,
    pub body: Body,
    pub expect: Expect,
}

#[verifier::ext_equal]
pub struct RequestView {
    pub method: Method,
    pub url: Seq<char>,
    pub headers: Seq<(Seq<char>, Seq<char>)>,
    pub query: Seq<(Seq<char>, Seq<char>)>,
    pub body: BodyView,
    pub expect: Expect,
}

impl DeepView for Request {
    type V = RequestView;

    open spec fn deep_view(&self) -> RequestView {
        RequestView {
            method: self.method,
            url: self.url@,
            headers: self.headers.deep_view(),
            query: self.query.deep_view(),
            body: self.body.deep_view(),
            expect: self.expect,
        }
    }
}

/// Appends a named value.
pub fn put(fields: &mut Vec<(String, String)>, name: &str, value: &str)
    ensures
        final(fields).deep_view() == old(fields).deep_view().push((name@, value@)),
{
    fields.push((name.to_owned(), value.to_owned()));
    assert(fields.deep_view() =~= old(fields).deep_view().push((name@, value@)));
}

/// An empty list of named values.
pub fn no_fields() -> (r: Vec<(String, String)>)
    ensures
        r.deep_view() == Seq::<(Seq<char>, Seq<char>)>::empty(),
{
    let r: Vec<(String, String)> = Vec::new();
    assert(r.deep_view() =~= Seq::<(Seq<char>, Seq<char>)>::empty());
    r
}

fn copy_fields(fields: &Vec<(String, String)>) -> (r: Vec<(String, String)>)
    ensures
        r.deep_view() == fields.deep_view(),
{
    let mut r: Vec<(String, String)> = Vec::new();
    for i in 0..fields.len()
        invariant
            r.deep_view() =~= fields.deep_view().take(i as int),
    {
        let ghost had = r.deep_view();
        r.push((fields[i].0.clone(), fields[i].1.clone()));
        assert(r.deep_view() =~= had.push(fields.deep_view()[i as int]));
    }
    assert(fields.deep_view().take(fields.len() as int) =~= fields.deep_view());
    r
}

impl Clone for Request {
    fn clone(&self) -> (r: Self)
        ensures
            r.deep_view() == self.deep_view(),
    {
        Request {
            method: self.method,
            url: self.url.clone(),
            headers: copy_fields(&self.headers),
            query: copy_fields(&self.query),
            body: match &self.body {
                Body::Empty => Body::Empty,
                Body::Form(fields) => Body::Form(copy_fields(fields)),
                Body::Title(title) => Body::Title(title.clone()),
            },
            expect: self.expect,
        }
    }
}

/// A login is taken with a status of 200 to 299 and no other; every other request
/// with any status but 400 to 599.
pub proof fn law_status_taken(expect: Expect, status: u16)
    ensures
        expect is Login ==> (expect.takes(status) <==> 200 <= status <= 299),
        !(expect is Login) ==> (expect.takes(status) <==> status < 400 || status > 599),
{
}

}
