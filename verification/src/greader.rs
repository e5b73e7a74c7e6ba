//! The requests of the Google Reader interface.
use vstd::prelude::*;

use crate::http::{no_fields, put, Body, BodyView, Expect, Method, Request, RequestView};
use crate::tags::{label_tag, tag_of_folder, READ_TAG, STARRED_TAG};
use crate::text;

verus! {

/// How many ids or items one page holds at most.
pub const PAGE: &'static str = "1000";

/// An authenticated session.
#[derive(Debug)]
pub struct Session {
    pub base: String,
    pub auth: String,
    pub token: String,
}

pub struct SessionView {
    pub base: Seq<char>,
    pub auth: Seq<char>,
    pub token: Seq<char>,
}

impl DeepView for Session {
    type V = SessionView;

    open spec fn deep_view(&self) -> SessionView {
        SessionView { base: self.base@, auth: self.auth@, token: self.token@ }
    }
}

/// The header that authenticates a request.
pub open spec fn auth_headers(auth: Seq<char>) -> Seq<(Seq<char>, Seq<char>)> {
    seq![("Authorization"@, "GoogleLogin auth="@ + auth)]
}

/// The address of an interface method.
pub open spec fn method_url(base: Seq<char>, path: Seq<char>) -> Seq<char> {
    base + "/reader/api/0/"@ + path
}

fn auth_header(auth: &str) -> (r: Vec<(String, String)>)
    ensures
        r.deep_view() == auth_headers(auth@),
{
    let mut headers = no_fields();
    let value = text::join("GoogleLogin auth=", auth);
    put(&mut headers, "Authorization", value.as_str());
    headers
}

impl SessionView {
    /// A request that reads.
    pub open spec fn reading(
        self,
        path: Seq<char>,
        query: Seq<(Seq<char>, Seq<char>)>,
        expect: Expect,
    ) -> RequestView {
        RequestView {
            method: Method::Get,
            url: method_url(self.base, path),
            headers: auth_headers(self.auth),
            query,
            body: BodyView::Empty,
            expect,
        }
    }

    /// A request that sends a form.
    pub open spec fn sending(
        self,
        path: Seq<char>,
        form: Seq<(Seq<char>, Seq<char>)>,
        expect: Expect,
    ) -> RequestView {
        RequestView {
            method: Method::Post,
            url: method_url(self.base, path),
            headers: auth_headers(self.auth),
            query: Seq::empty(),
            body: BodyView::Form(form),
            expect,
        }
    }
}

impl Session {
    /// A request that reads.
    pub fn get(&self, path: &str, query: Vec<(String, String)>, expect: Expect) -> (r: Request)
        ensures
            r.deep_view() == self.deep_view().reading(path@, query.deep_view(), expect),
    {
        Request {
            method: Method::Get,
            url: text::join3(self.base.as_str(), "/reader/api/0/", path),
            headers: auth_header(self.auth.as_str()),
            query,
            body: Body::Empty,
            expect,
        }
    }

    /// A request that sends a form.
    pub fn post(&self, path: &str, form: Vec<(String, String)>, expect: Expect) -> (r: Request)
        ensures
            r.deep_view() == self.deep_view().sending(path@, form.deep_view(), expect),
    {
        Request {
            method: Method::Post,
            url: text::join3(self.base.as_str(), "/reader/api/0/", path),
            headers: auth_header(self.auth.as_str()),
            query: no_fields(),
            body: Body::Form(form),
            expect,
        }
    }
}

/// Exchanges user and password for a token.
pub open spec fn login_call(base: Seq<char>, user: Seq<char>, pass: Seq<char>) -> RequestView {
    RequestView {
        method: Method::Post,
        url: base + "/accounts/ClientLogin"@,
        headers: Seq::empty(),
        query: Seq::empty(),
        body: BodyView::Form(seq![("Email"@, user), ("Passwd"@, pass)]),
        expect: Expect::Login,
    }
}

/// Exchanges user and password for a token.
pub fn login_request(base: &str, user: &str, pass: &str) -> (r: Request)
    ensures
        r.deep_view() == login_call(base@, user@, pass@),
{
    let mut form = no_fields();
    put(&mut form, "Email", user);
    put(&mut form, "Passwd", pass);
    Request {
        method: Method::Post,
        url: text::join(base, "/accounts/ClientLogin"),
        headers: no_fields(),
        query: no_fields(),
        body: Body::Form(form),
        expect: Expect::Login,
    }
}

/// Asks for a write token.
pub open spec fn token_call(base: Seq<char>, auth: Seq<char>) -> RequestView {
    RequestView {
        method: Method::Get,
        url: method_url(base, "token"@),
        headers: auth_headers(auth),
        query: Seq::empty(),
        body: BodyView::Empty,
        expect: Expect::Token,
    }
}

/// Asks for a write token.
pub fn token_request(base: &str, auth: &str) -> (r: Request)
    ensures
        r.deep_view() == token_call(base@, auth@),
{
    Request {
        method: Method::Get,
        url: text::join3(base, "/reader/api/0/", "token"),
        headers: auth_header(auth),
        query: no_fields(),
        body: Body::Empty,
        expect: Expect::Token,
    }
}

/// The token that a login reply carries: what follows `Auth=` on the first line
/// that begins so, without surrounding white space, if anything is left.
pub open spec fn auth_in(body: Seq<char>) -> Option<Seq<char>> {
    match text::line_rest(body, "Auth="@) {
        Some(rest) => if text::trimmed(rest).len() > 0 {
            Some(text::trimmed(rest))
        } else {
            None
        },
        None => None,
    }
}

/// Reads the token out of a login reply.
pub fn parse_auth(body: &str) -> (r: Option<String>)
    ensures
        r.deep_view() == auth_in(body@),
{
    match text::find_line(body, "Auth=") {
        Some(rest) => {
            let t = text::trim(rest);
            if t.is_empty() {
                None
            } else {
                Some(t.to_owned())
            }
        },
        None => None,
    }
}

impl SessionView {
    /// Asks for the subscriptions.
    pub open spec fn list_call(self) -> RequestView {
        self.reading("subscription/list?output=json"@, Seq::empty(), Expect::Subscriptions)
    }

    /// Subscribes to a feed.
    pub open spec fn subscribe_call(self, url: Seq<char>) -> RequestView {
        self.sending(
            "subscription/edit"@,
            seq![("ac"@, "subscribe"@), ("s"@, "feed/"@ + url), ("T"@, self.token)],
            Expect::Done,
        )
    }

    /// Ends a subscription.
    pub open spec fn unsubscribe_call(self, stream: Seq<char>) -> RequestView {
        self.sending(
            "subscription/edit"@,
            seq![("ac"@, "unsubscribe"@), ("s"@, stream), ("T"@, self.token)],
            Expect::Done,
        )
    }

    /// Files a subscription under a folder unless its name is blank, and takes
    /// every tag of `remove` off it.
    pub open spec fn folder_call(
        self,
        stream: Seq<char>,
        remove: Seq<Seq<char>>,
        folder: Option<Seq<char>>,
    ) -> RequestView {
        let head = seq![("ac"@, "edit"@), ("s"@, stream), ("T"@, self.token)];
        let filed = if folder is Some && text::trimmed(folder->0).len() > 0 {
            head.push(("a"@, tag_of_folder(text::trimmed(folder->0))))
        } else {
            head
        };
        self.sending(
            "subscription/edit"@,
            filed + remove.map_values(|tag: Seq<char>| ("r"@, tag)),
            Expect::Done,
        )
    }

    /// Sets or clears the read or starred tag of an item.
    pub open spec fn state_call(
        self,
        remote_id: Seq<char>,
        field: Seq<char>,
        value: bool,
    ) -> RequestView {
        self.sending(
            "edit-tag"@,
            seq![
                ("i"@, remote_id),
                (
                    if value {
                        "a"@
                    } else {
                        "r"@
                    },
                    if field == "starred"@ {
                        STARRED_TAG@
                    } else {
                        READ_TAG@
                    },
                ),
                ("T"@, self.token),
            ],
            Expect::Done,
        )
    }

    /// Asks for a page of the ids of a stream, without the items tagged `xt`.
    pub open spec fn ids_call(
        self,
        stream: Seq<char>,
        xt: Option<Seq<char>>,
        offset: Option<usize>,
    ) -> RequestView {
        let head = seq![("output"@, "json"@), ("s"@, stream), ("n"@, PAGE@)];
        let excluded = if xt is Some {
            head.push(("xt"@, xt->0))
        } else {
            head
        };
        let query = if offset is Some {
            excluded.push(("c"@, text::decimal(offset->0 as nat)))
        } else {
            excluded
        };
        self.reading("stream/items/ids"@, query, Expect::Ids)
    }

    /// Asks for the items with these ids.
    pub open spec fn items_call(self, ids: Seq<Seq<char>>) -> RequestView {
        self.sending(
            "stream/items/contents"@,
            seq![("T"@, self.token), ("output"@, "json"@)] + ids.map_values(
                |id: Seq<char>| ("i"@, id),
            ),
            Expect::Contents,
        )
    }

    /// Asks for a page of the items of a stream, without those tagged `xt`.
    pub open spec fn stream_call(
        self,
        stream: Seq<char>,
        xt: Option<Seq<char>>,
        continuation: Option<Seq<char>>,
    ) -> RequestView {
        let head = seq![("output"@, "json"@), ("n"@, PAGE@)];
        let excluded = if xt is Some {
            head.push(("xt"@, xt->0))
        } else {
            head
        };
        let query = if continuation is Some {
            excluded.push(("c"@, continuation->0))
        } else {
            excluded
        };
        self.reading("stream/contents/"@ + stream, query, Expect::Contents)
    }
}

/// Appends the same name with each of the values.
fn put_each(fields: &mut Vec<(String, String)>, name: &str, values: &[String])
    ensures
        final(fields).deep_view() == old(fields).deep_view() + values.deep_view().map_values(
            |v: Seq<char>| (name@, v),
        ),
{
    let ghost before = fields.deep_view();
    let ghost all = values.deep_view().map_values(|v: Seq<char>| (name@, v));
    let mut i: usize = 0;
    assert(before + all.take(0) =~= before);
    while i < values.len()
        invariant
            i <= values.len(),
            all == values.deep_view().map_values(|v: Seq<char>| (name@, v)),
            fields.deep_view() == before + all.take(i as int),
        decreases values.len() - i,
    {
        put(fields, name, values[i].as_str());
        assert(all[i as int] == (name@, values[i as int]@));
        assert((before + all.take(i as int)).push(all[i as int]) =~= before + all.take(i + 1));
        i = i + 1;
    }
    assert(all.take(all.len() as int) =~= all);
}

impl Session {
    /// Asks for the subscriptions.
    pub fn list_subscriptions(&self) -> (r: Request)
        ensures
            r.deep_view() == self.deep_view().list_call(),
    {
        self.get("subscription/list?output=json", no_fields(), Expect::Subscriptions)
    }

    /// Subscribes to a feed.
    pub fn subscribe_url(&self, url: &str) -> (r: Request)
        ensures
            r.deep_view() == self.deep_view().subscribe_call(url@),
    {
        let stream = text::join("feed/", url);
        let mut form = no_fields();
        put(&mut form, "ac", "subscribe");
        put(&mut form, "s", stream.as_str());
        put(&mut form, "T", self.token.as_str());
        self.post("subscription/edit", form, Expect::Done)
    }

    /// Ends a subscription.
    pub fn unsubscribe_stream(&self, stream: &str) -> (r: Request)
        ensures
            r.deep_view() == self.deep_view().unsubscribe_call(stream@),
    {
        let mut form = no_fields();
        put(&mut form, "ac", "unsubscribe");
        put(&mut form, "s", stream);
        put(&mut form, "T", self.token.as_str());
        self.post("subscription/edit", form, Expect::Done)
    }

    /// Moves a subscription into `folder`, when one is named, and out of every
    /// category listed in `remove`, in one request.
    pub fn set_subscription_folder(
        &self,
        stream: &str,
        remove: &[String],
        folder: Option<&str>,
    ) -> (r: Request)
        ensures
            r.deep_view() == self.deep_view().folder_call(
                stream@,
                remove.deep_view(),
                folder.deep_view(),
            ),
    {
        let mut form = no_fields();
        put(&mut form, "ac", "edit");
        put(&mut form, "s", stream);
        put(&mut form, "T", self.token.as_str());
        if let Some(folder) = folder {
            let name = text::trim(folder);
            if !name.is_empty() {
                let tag = label_tag(name);
                put(&mut form, "a", tag.as_str());
            }
        }
        put_each(&mut form, "r", remove);
        self.post("subscription/edit", form, Expect::Done)
    }

    /// Sets or clears the read or starred tag of an item.
    pub fn push_state(&self, remote_id: &str, field: &str, value: bool) -> (r: Request)
        ensures
            r.deep_view() == self.deep_view().state_call(remote_id@, field@, value),
    {
        let tag = if text::same(field, "starred") {
            STARRED_TAG
        } else {
            READ_TAG
        };
        let action = if value {
            "a"
        } else {
            "r"
        };
        let mut form = no_fields();
        put(&mut form, "i", remote_id);
        put(&mut form, action, tag);
        put(&mut form, "T", self.token.as_str());
        self.post("edit-tag", form, Expect::Done)
    }

    /// Asks for a page of the ids of a stream.
    pub fn item_ids(&self, stream: &str, xt: Option<&str>, offset: Option<usize>) -> (r: Request)
        ensures
            r.deep_view() == self.deep_view().ids_call(stream@, xt.deep_view(), offset),
    {
        let mut query = no_fields();
        put(&mut query, "output", "json");
        put(&mut query, "s", stream);
        put(&mut query, "n", PAGE);
        if let Some(xt) = xt {
            put(&mut query, "xt", xt);
        }
        if let Some(c) = offset {
            let c = text::unsigned_text(c as u64);
            put(&mut query, "c", c.as_str());
        }
        self.get("stream/items/ids", query, Expect::Ids)
    }

    /// Asks for the items with these ids.
    pub fn items_by_id(&self, ids: &[String]) -> (r: Request)
        ensures
            r.deep_view() == self.deep_view().items_call(ids.deep_view()),
    {
        let mut form = no_fields();
        put(&mut form, "T", self.token.as_str());
        put(&mut form, "output", "json");
        put_each(&mut form, "i", ids);
        self.post("stream/items/contents", form, Expect::Contents)
    }

    /// Asks for a page of the items of a stream.
    pub fn stream_items(
        &self,
        stream: &str,
        xt: Option<&str>,
        continuation: Option<&str>,
    ) -> (r: Request)
        ensures
            r.deep_view() == self.deep_view().stream_call(
                stream@,
                xt.deep_view(),
                continuation.deep_view(),
            ),
    {
        let path = text::join("stream/contents/", stream);
        let mut query = no_fields();
        put(&mut query, "output", "json");
        put(&mut query, "n", PAGE);
        if let Some(xt) = xt {
            put(&mut query, "xt", xt);
        }
        if let Some(c) = continuation {
            put(&mut query, "c", c);
        }
        self.get(path.as_str(), query, Expect::Contents)
    }
}

proof fn lemma_line_len_of(line: Seq<char>, after: Seq<char>)
    requires
        !line.contains('\n'),
        after.len() > 0 ==> after[0] == '\n',
    ensures
        text::line_len(line + after) == line.len(),
    decreases line.len(),
{
    if line.len() > 0 {
        assert(line[0] != '\n') by {
            assert(line.contains(line[0]));
        }
        let rest = line.drop_first();
        assert(!rest.contains('\n')) by {
            if rest.contains('\n') {
                let k = choose|k: int| 0 <= k < rest.len() && rest[k] == '\n';
                assert(line[k + 1] == '\n');
            }
        }
        lemma_line_len_of(rest, after);
        assert((line + after).drop_first() =~= rest + after);
    } else {
        assert(line + after =~= after);
    }
}

proof fn lemma_line_fits(s: Seq<char>)
    ensures
        text::line_len(s) <= s.len(),
        text::line_len(s) < s.len() ==> s[text::line_len(s) as int] == '\n',
        !s.take(text::line_len(s) as int).contains('\n'),
    decreases s.len(),
{
    if s.len() > 0 && s[0] != '\n' {
        let rest = s.drop_first();
        let n = text::line_len(rest) as int;
        lemma_line_fits(rest);
        let line = s.take(n + 1);
        assert(!line.contains('\n')) by {
            if line.contains('\n') {
                let k = choose|k: int| 0 <= k < line.len() && line[k] == '\n';
                assert(k > 0);
                assert(rest.take(n)[k - 1] == '\n');
            }
        }
    }
}

/// The token is found on whichever line of the reply it stands, if it is the
/// first such line.
pub proof fn law_token_found(before: Seq<char>, token: Seq<char>, after: Seq<char>)
    requires
        before.len() > 0 ==> before.last() == '\n',
        text::line_rest(before, "Auth="@) is None,
        !token.contains('\n'),
        after.len() > 0 ==> after[0] == '\n',
    ensures
        auth_in(before + ("Auth="@ + token) + after) == if text::trimmed(token).len() > 0 {
            Some(text::trimmed(token))
        } else {
            None
        },
    decreases before.len(),
{
    reveal_strlit("Auth=");
    let prefix = "Auth="@;
    let line = prefix + token;
    let body = before + line + after;
    assert(!line.contains('\n')) by {
        if line.contains('\n') {
            let k = choose|k: int| 0 <= k < line.len() && line[k] == '\n';
            if k >= 5 {
                assert(token[k - 5] == '\n');
            }
        }
    }
    if before.len() == 0 {
        assert(body =~= line + after);
        lemma_line_len_of(line, after);
        assert(body.take(line.len() as int) =~= line);
        assert(line.take(5) =~= prefix);
        assert(line.skip(5) =~= token);
    } else {
        let n = text::line_len(before) as int;
        lemma_line_fits(before);
        let first = before.take(n);
        let rest = before.skip(n + 1);
        assert(n < before.len()) by {
            if n == before.len() {
                assert(before.take(n) =~= before);
                assert(before[n - 1] == '\n');
            }
        }
        assert(body =~= first + (before.skip(n) + line + after));
        assert((before.skip(n) + line + after)[0] == '\n');
        lemma_line_len_of(first, before.skip(n) + line + after);
        assert(body.take(n) =~= first);
        assert(body.skip(n + 1) =~= rest + line + after);
        if rest.len() > 0 {
            assert(rest.last() == before.last());
        }
        law_token_found(rest, token, after);
        assert(text::line_rest(body, prefix) == text::line_rest(rest + line + after, prefix));
    }
}

/// The form that is sent for a change of the read or starred state: the key says
/// whether the state is set or cleared, and the tag which of the two it is.
pub proof fn law_state_forms(session: SessionView, remote_id: Seq<char>)
    ensures
        session.state_call(remote_id, "starred"@, true).body == BodyView::Form(
            seq![
                ("i"@, remote_id),
                ("a"@, "user/-/state/com.google/starred"@),
                ("T"@, session.token),
            ],
        ),
        session.state_call(remote_id, "starred"@, false).body == BodyView::Form(
            seq![
                ("i"@, remote_id),
                ("r"@, "user/-/state/com.google/starred"@),
                ("T"@, session.token),
            ],
        ),
        session.state_call(remote_id, "read"@, true).body == BodyView::Form(
            seq![
                ("i"@, remote_id),
                ("a"@, "user/-/state/com.google/read"@),
                ("T"@, session.token),
            ],
        ),
        session.state_call(remote_id, "read"@, false).body == BodyView::Form(
            seq![
                ("i"@, remote_id),
                ("r"@, "user/-/state/com.google/read"@),
                ("T"@, session.token),
            ],
        ),
{
    reveal_strlit("starred");
    reveal_strlit("read");
    assert("starred"@.len() != "read"@.len());
}

/// Whatever the value, the tag is the starred one exactly for the field
/// "starred"; whatever the field, the key is "a" exactly where the value is true;
/// and the item, the address and the token depend on neither.
pub proof fn law_state_request(
    session: SessionView,
    remote_id: Seq<char>,
    field: Seq<char>,
    value: bool,
)
    ensures
        session.state_call(remote_id, field, value).body is Form,
        session.state_call(remote_id, field, value).body->Form_0.len() == 3,
        session.state_call(remote_id, field, value).body->Form_0[0] == ("i"@, remote_id),
        session.state_call(remote_id, field, value).body->Form_0[1].0 == "a"@ <==> value,
        session.state_call(remote_id, field, value).body->Form_0[1].0 == "r"@ <==> !value,
        session.state_call(remote_id, field, value).body->Form_0[1].1
            == "user/-/state/com.google/starred"@ <==> field == "starred"@,
        session.state_call(remote_id, field, value).body->Form_0[1].1
            == "user/-/state/com.google/read"@ <==> field != "starred"@,
        session.state_call(remote_id, field, value).body->Form_0[2] == ("T"@, session.token),
        session.state_call(remote_id, field, value).method == Method::Post,
        session.state_call(remote_id, field, value).url == session.base + "/reader/api/0/"@
            + "edit-tag"@,
        session.state_call(remote_id, field, value).headers
            == seq![("Authorization"@, "GoogleLogin auth="@ + session.auth)],
        session.state_call(remote_id, field, value).query.len() == 0,
        session.state_call(remote_id, field, value).expect == Expect::Done,
{
    reveal_strlit("a");
    reveal_strlit("r");
    assert("a"@[0] != "r"@[0]);
    reveal_strlit("user/-/state/com.google/read");
    reveal_strlit("user/-/state/com.google/starred");
    assert("user/-/state/com.google/read"@.len() != "user/-/state/com.google/starred"@.len());
}

/// Setting a state and clearing it differ in the key alone, and two fields get
/// the same request exactly where they name the same state.
pub proof fn law_state_requests_compared(
    session: SessionView,
    remote_id: Seq<char>,
    field: Seq<char>,
    other: Seq<char>,
    value: bool,
)
    ensures
        session.state_call(remote_id, field, true) != session.state_call(remote_id, field, false),
        session.state_call(remote_id, field, true).body->Form_0[1].1 == session.state_call(
            remote_id,
            field,
            false,
        ).body->Form_0[1].1,
        session.state_call(remote_id, field, value) == session.state_call(remote_id, other, value)
            <==> (field == "starred"@ <==> other == "starred"@),
{
    law_state_request(session, remote_id, field, true);
    law_state_request(session, remote_id, field, false);
    law_state_request(session, remote_id, field, value);
    law_state_request(session, remote_id, other, value);
}

/// A login posts user and password, unauthenticated, to the login address.
pub proof fn law_login_request(base: Seq<char>, user: Seq<char>, pass: Seq<char>)
    ensures
        login_call(base, user, pass) == (RequestView {
            method: Method::Post,
            url: base + "/accounts/ClientLogin"@,
            headers: Seq::empty(),
            query: Seq::empty(),
            body: BodyView::Form(seq![("Email"@, user), ("Passwd"@, pass)]),
            expect: Expect::Login,
        }),
{
}

/// The requests that read carry the login token in the header and nothing in the
/// body: the write token, and the list of subscriptions.
pub proof fn law_reading_requests(session: SessionView)
    ensures
        token_call(session.base, session.auth) == (RequestView {
            method: Method::Get,
            url: session.base + "/reader/api/0/"@ + "token"@,
            headers: seq![("Authorization"@, "GoogleLogin auth="@ + session.auth)],
            query: Seq::empty(),
            body: BodyView::Empty,
            expect: Expect::Token,
        }),
        session.list_call() == (RequestView {
            method: Method::Get,
            url: session.base + "/reader/api/0/"@ + "subscription/list?output=json"@,
            headers: seq![("Authorization"@, "GoogleLogin auth="@ + session.auth)],
            query: Seq::empty(),
            body: BodyView::Empty,
            expect: Expect::Subscriptions,
        }),
{
}

/// Subscribing names the feed by its address, unsubscribing by its stream; both
/// carry the write token.
pub proof fn law_subscription_requests(session: SessionView, url: Seq<char>, stream: Seq<char>)
    ensures
        session.subscribe_call(url) == (RequestView {
            method: Method::Post,
            url: session.base + "/reader/api/0/"@ + "subscription/edit"@,
            headers: seq![("Authorization"@, "GoogleLogin auth="@ + session.auth)],
            query: Seq::empty(),
            body: BodyView::Form(
                seq![("ac"@, "subscribe"@), ("s"@, "feed/"@ + url), ("T"@, session.token)],
            ),
            expect: Expect::Done,
        }),
        session.unsubscribe_call(stream) == (RequestView {
            method: Method::Post,
            url: session.base + "/reader/api/0/"@ + "subscription/edit"@,
            headers: seq![("Authorization"@, "GoogleLogin auth="@ + session.auth)],
            query: Seq::empty(),
            body: BodyView::Form(
                seq![("ac"@, "unsubscribe"@), ("s"@, stream), ("T"@, session.token)],
            ),
            expect: Expect::Done,
        }),
{
}

/// Filing a subscription names its stream, then the label of the folder unless
/// its name is blank, then each tag that is to go, in order.
pub proof fn law_filing_request(
    session: SessionView,
    stream: Seq<char>,
    remove: Seq<Seq<char>>,
    folder: Option<Seq<char>>,
)
    ensures
        session.folder_call(stream, remove, folder) == (RequestView {
            method: Method::Post,
            url: session.base + "/reader/api/0/"@ + "subscription/edit"@,
            headers: seq![("Authorization"@, "GoogleLogin auth="@ + session.auth)],
            query: Seq::empty(),
            body: BodyView::Form(
                seq![("ac"@, "edit"@), ("s"@, stream), ("T"@, session.token)] + (match folder {
                    Some(name) => if text::trimmed(name).len() > 0 {
                        seq![("a"@, "user/-/label/"@ + text::trimmed(name))]
                    } else {
                        Seq::empty()
                    },
                    None => Seq::empty(),
                }) + Seq::new(remove.len(), |i: int| ("r"@, remove[i])),
            ),
            expect: Expect::Done,
        }),
{
    if folder is Some {
        text::law_trimmed_idempotent(folder->0);
    }
    let form = session.folder_call(stream, remove, folder).body->Form_0;
    let head = seq![("ac"@, "edit"@), ("s"@, stream), ("T"@, session.token)];
    let tail = Seq::new(remove.len(), |i: int| ("r"@, remove[i]));
    assert(remove.map_values(|tag: Seq<char>| ("r"@, tag)) =~= tail);
    if folder is Some && text::trimmed(folder->0).len() > 0 {
        assert(form =~= head + seq![("a"@, "user/-/label/"@ + text::trimmed(folder->0))] + tail);
    } else {
        assert(form =~= head + Seq::empty() + tail);
    }
}

/// A page of ids names the stream and the size of a page, then the tag that is to
/// be left out, then the offset, where there are such.
pub proof fn law_ids_request(
    session: SessionView,
    stream: Seq<char>,
    xt: Option<Seq<char>>,
    offset: Option<usize>,
)
    ensures
        session.ids_call(stream, xt, offset) == (RequestView {
            method: Method::Get,
            url: session.base + "/reader/api/0/"@ + "stream/items/ids"@,
            headers: seq![("Authorization"@, "GoogleLogin auth="@ + session.auth)],
            query: seq![("output"@, "json"@), ("s"@, stream), ("n"@, "1000"@)] + (match xt {
                Some(tag) => seq![("xt"@, tag)],
                None => Seq::empty(),
            }) + (match offset {
                Some(at) => seq![("c"@, text::decimal(at as nat))],
                None => Seq::empty(),
            }),
            body: BodyView::Empty,
            expect: Expect::Ids,
        }),
{
    let query = session.ids_call(stream, xt, offset).query;
    let head = seq![("output"@, "json"@), ("s"@, stream), ("n"@, "1000"@)];
    let excluded: Seq<(Seq<char>, Seq<char>)> = match xt {
        Some(tag) => seq![("xt"@, tag)],
        None => Seq::empty(),
    };
    let from: Seq<(Seq<char>, Seq<char>)> = match offset {
        Some(at) => seq![("c"@, text::decimal(at as nat))],
        None => Seq::empty(),
    };
    assert(query =~= head + excluded + from);
}

/// The items of given ids are asked for with the write token and every id, in
/// order.
pub proof fn law_items_request(session: SessionView, ids: Seq<Seq<char>>)
    ensures
        session.items_call(ids) == (RequestView {
            method: Method::Post,
            url: session.base + "/reader/api/0/"@ + "stream/items/contents"@,
            headers: seq![("Authorization"@, "GoogleLogin auth="@ + session.auth)],
            query: Seq::empty(),
            body: BodyView::Form(
                seq![("T"@, session.token), ("output"@, "json"@)] + Seq::new(
                    ids.len(),
                    |i: int| ("i"@, ids[i]),
                ),
            ),
            expect: Expect::Contents,
        }),
{
    assert(ids.map_values(|id: Seq<char>| ("i"@, id)) =~= Seq::new(
        ids.len(),
        |i: int| ("i"@, ids[i]),
    ));
}

/// A page of items names the stream in the address and the size of a page, then
/// the tag that is to be left out, then the continuation, where there are such.
pub proof fn law_stream_request(
    session: SessionView,
    stream: Seq<char>,
    xt: Option<Seq<char>>,
    continuation: Option<Seq<char>>,
)
    ensures
        session.stream_call(stream, xt, continuation) == (RequestView {
            method: Method::Get,
            url: session.base + "/reader/api/0/"@ + ("stream/contents/"@ + stream),
            headers: seq![("Authorization"@, "GoogleLogin auth="@ + session.auth)],
            query: seq![("output"@, "json"@), ("n"@, "1000"@)] + (match xt {
                Some(tag) => seq![("xt"@, tag)],
                None => Seq::empty(),
            }) + (match continuation {
                Some(next) => seq![("c"@, next)],
                None => Seq::empty(),
            }),
            body: BodyView::Empty,
            expect: Expect::Contents,
        }),
{
    let query = session.stream_call(stream, xt, continuation).query;
    let head = seq![("output"@, "json"@), ("n"@, "1000"@)];
    let excluded: Seq<(Seq<char>, Seq<char>)> = match xt {
        Some(tag) => seq![("xt"@, tag)],
        None => Seq::empty(),
    };
    let from: Seq<(Seq<char>, Seq<char>)> = match continuation {
        Some(next) => seq![("c"@, next)],
        None => Seq::empty(),
    };
    assert(query =~= head + excluded + from);
}

/// A login reply without a line that begins with `Auth=`, or with a blank rest of
/// the first such line, holds no token; otherwise that rest is the token.
pub proof fn law_token_read(body: Seq<char>)
    ensures
        auth_in(body) is Some <==> text::line_rest(body, "Auth="@) is Some && text::trimmed(
            text::line_rest(body, "Auth="@)->0,
        ).len() > 0,
        auth_in(body) matches Some(token) ==> token == text::trimmed(
            text::line_rest(body, "Auth="@)->0,
        ),
{
}

}
