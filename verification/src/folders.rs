//! Folders on Miniflux's native interface. Labels of the Google Reader interface
//! exist only on subscriptions, so an empty folder has no counterpart there;
//! with an API key the native interface bridges that gap. Without one these
//! operations change nothing.
use vstd::prelude::*;

use crate::data::{CategoryView, MinifluxCategory};
use crate::http::{no_fields, put, Body, BodyView, Expect, Method, Request, RequestView};
use crate::provider::Provider;
use crate::settings::{creds, creds_in, Creds, CredsView, Settings, SettingsView};
use crate::text;
use crate::world::{Action, ActionView, Event, EventView, SyncError};

verus! {

impl CredsView {
    /// The root of the native interface and the key to it, where the provider
    /// is Miniflux and a key is stored.
    pub open spec fn native(self) -> Option<(Seq<char>, Seq<char>)> {
        if self.provider == Provider::Miniflux && self.miniflux_api_key is Some {
            Some((text::unslashed(text::trimmed(self.url)), self.miniflux_api_key->0))
        } else {
            None
        }
    }
}

/// The root of the native interface and the key to it, or `None` when the
/// provider is not Miniflux or no key is stored.
pub fn miniflux_api(creds: &Creds) -> (r: Option<(String, &str)>)
    ensures
        r.deep_view() == creds.deep_view().native(),
{
    match creds.provider {
        Provider::Miniflux => match &creds.miniflux_api_key {
            Some(key) => Some(
                (
                    text::trim_end_slashes(text::trim(creds.url.as_str())).to_owned(),
                    key.as_str(),
                ),
            ),
            None => None,
        },
        Provider::FreshRss => None,
    }
}

/// Decides whether the connection is to Miniflux but lacks the key to its native
/// interface, so that folders without feeds cannot be carried over.
pub fn key_missing(s: &Settings) -> (r: bool)
    ensures
        r == (creds_in(s.deep_view()) matches Some(creds) && creds.provider == Provider::Miniflux
            && creds.native() is None),
{
    match creds(s) {
        Some(creds) => match creds.provider {
            Provider::Miniflux => miniflux_api(&creds).is_none(),
            Provider::FreshRss => false,
        },
        None => false,
    }
}

/// Titles are compared without surrounding white space and without regard to
/// the case of ASCII letters.
pub open spec fn title_is(title: Seq<char>, name: Seq<char>) -> bool {
    text::same_ignoring_case(text::trimmed(title), text::trimmed(name))
}

/// The id of the first category with this title.
pub open spec fn category_for(categories: Seq<CategoryView>, name: Seq<char>) -> Option<i64>
    decreases categories.len(),
{
    if categories.len() == 0 {
        None
    } else if title_is(categories[0].title, name) {
        Some(categories[0].id)
    } else {
        category_for(categories.drop_first(), name)
    }
}

/// The id of the first category with this title.
pub fn find_miniflux_category_id(categories: &[MinifluxCategory], name: &str) -> (r: Option<i64>)
    ensures
        r == category_for(categories.deep_view(), name@),
{
    let wanted = text::trim(name);
    let ghost all = categories.deep_view();
    assert(all.skip(0) =~= all);
    let mut i: usize = 0;
    while i < categories.len()
        invariant
            i <= categories.len(),
            wanted@ == text::trimmed(name@),
            all == categories.deep_view(),
            category_for(all, name@) == category_for(all.skip(i as int), name@),
        decreases categories.len() - i,
    {
        let ghost rest = all.skip(i as int);
        assert(rest[0] == categories@[i as int].deep_view());
        assert(rest.drop_first() =~= all.skip(i + 1));
        if text::eq_ignore_ascii_case(text::trim(categories[i].title.as_str()), wanted) {
            return Some(categories[i].id);
        }
        i = i + 1;
    }
    None
}

/// A request to the native interface.
pub open spec fn native_call(
    method: Method,
    url: Seq<char>,
    key: Seq<char>,
    body: BodyView,
    expect: Expect,
) -> RequestView {
    RequestView {
        method,
        url,
        headers: seq![("X-Auth-Token"@, key)],
        query: Seq::empty(),
        body,
        expect,
    }
}

fn native_request(method: Method, url: String, key: &str, body: Body, expect: Expect) -> (r:
    Request)
    ensures
        r.deep_view() == native_call(method, url@, key@, body.deep_view(), expect),
{
    let mut headers = no_fields();
    put(&mut headers, "X-Auth-Token", key);
    Request { method, url, headers, query: no_fields(), body, expect }
}

/// The address of the category list.
pub open spec fn categories_url(base: Seq<char>) -> Seq<char> {
    base + "/v1/categories"@
}

/// The address of one category.
pub open spec fn category_url(base: Seq<char>, id: i64) -> Seq<char> {
    base + "/v1/categories/"@ + text::signed_decimal(id as int)
}

/// Asks for the categories.
pub open spec fn categories_call(base: Seq<char>, key: Seq<char>) -> RequestView {
    native_call(Method::Get, categories_url(base), key, BodyView::Empty, Expect::Categories)
}

/// Asks for the categories.
pub fn miniflux_categories(base: &str, key: &str) -> (r: Request)
    ensures
        r.deep_view() == categories_call(base@, key@),
{
    native_request(
        Method::Get,
        text::join(base, "/v1/categories"),
        key,
        Body::Empty,
        Expect::Categories,
    )
}

/// A local change of a folder.
#[derive(Debug)]
pub enum FolderEdit {
    Create { name: String },
    Rename { old_name: String, new_name: String },
    Delete { name: String },
}

pub enum FolderEditView {
    Create { name: Seq<char> },
    Rename { old_name: Seq<char>, new_name: Seq<char> },
    Delete { name: Seq<char> },
}

impl DeepView for FolderEdit {
    type V = FolderEditView;

    open spec fn deep_view(&self) -> FolderEditView {
        match self {
            FolderEdit::Create { name } => FolderEditView::Create { name: name@ },
            FolderEdit::Rename { old_name, new_name } => FolderEditView::Rename {
                old_name: old_name@,
                new_name: new_name@,
            },
            FolderEdit::Delete { name } => FolderEditView::Delete { name: name@ },
        }
    }
}

/// What a folder edit comes to, given the server's categories.
#[derive(Debug)]
pub enum FolderPlan {
    /// Nothing to send; whether the server is as wanted.
    Settled(bool),
    Send(Request),
}

pub enum FolderPlanView {
    Settled(bool),
    Send(RequestView),
}

impl DeepView for FolderPlan {
    type V = FolderPlanView;

    open spec fn deep_view(&self) -> FolderPlanView {
        match self {
            FolderPlan::Settled(done) => FolderPlanView::Settled(*done),
            FolderPlan::Send(request) => FolderPlanView::Send(request.deep_view()),
        }
    }
}

impl FolderEditView {
    /// A folder that exists is not created again; one that does not exist is
    /// neither renamed nor deleted.
    pub open spec fn plan(
        self,
        base: Seq<char>,
        key: Seq<char>,
        categories: Seq<CategoryView>,
    ) -> FolderPlanView {
        match self {
            FolderEditView::Create { name } => match category_for(categories, name) {
                Some(_) => FolderPlanView::Settled(true),
                None => FolderPlanView::Send(
                    native_call(
                        Method::Post,
                        categories_url(base),
                        key,
                        BodyView::Title(text::trimmed(name)),
                        Expect::Done,
                    ),
                ),
            },
            FolderEditView::Rename { old_name, new_name } => match category_for(
                categories,
                old_name,
            ) {
                Some(id) => FolderPlanView::Send(
                    native_call(
                        Method::Put,
                        category_url(base, id),
                        key,
                        BodyView::Title(text::trimmed(new_name)),
                        Expect::Done,
                    ),
                ),
                None => FolderPlanView::Settled(false),
            },
            FolderEditView::Delete { name } => match category_for(categories, name) {
                Some(id) => FolderPlanView::Send(
                    native_call(
                        Method::Delete,
                        category_url(base, id),
                        key,
                        BodyView::Empty,
                        Expect::Done,
                    ),
                ),
                None => FolderPlanView::Settled(false),
            },
        }
    }
}

fn category_address(base: &str, id: i64) -> (r: String)
    ensures
        r@ == category_url(base@, id),
{
    let id = text::signed_text(id);
    text::join3(base, "/v1/categories/", id.as_str())
}

/// What a folder edit comes to, given the server's categories.
pub fn plan_folder(
    edit: &FolderEdit,
    base: &str,
    key: &str,
    categories: &Vec<MinifluxCategory>,
) -> (r: FolderPlan)
    ensures
        r.deep_view() == edit.deep_view().plan(base@, key@, categories.deep_view()),
{
    match edit {
        FolderEdit::Create { name } => match find_miniflux_category_id(
            categories.as_slice(),
            name.as_str(),
        ) {
            Some(_) => FolderPlan::Settled(true),
            None => FolderPlan::Send(
                native_request(
                    Method::Post,
                    text::join(base, "/v1/categories"),
                    key,
                    Body::Title(text::trim(name.as_str()).to_owned()),
                    Expect::Done,
                ),
            ),
        },
        FolderEdit::Rename { old_name, new_name } => match find_miniflux_category_id(
            categories.as_slice(),
            old_name.as_str(),
        ) {
            Some(id) => FolderPlan::Send(
                native_request(
                    Method::Put,
                    category_address(base, id),
                    key,
                    Body::Title(text::trim(new_name.as_str()).to_owned()),
                    Expect::Done,
                ),
            ),
            None => FolderPlan::Settled(false),
        },
        FolderEdit::Delete { name } => match find_miniflux_category_id(
            categories.as_slice(),
            name.as_str(),
        ) {
            Some(id) => FolderPlan::Send(
                native_request(
                    Method::Delete,
                    category_address(base, id),
                    key,
                    Body::Empty,
                    Expect::Done,
                ),
            ),
            None => FolderPlan::Settled(false),
        },
    }
}

/// Carries a folder edit over to the server. Ends with whether the server is as
/// wanted.
#[derive(Debug)]
pub enum FolderRun {
    Reading { edit: FolderEdit },
    Listing { edit: FolderEdit, base: String, key: String },
    Sending { request: Request },
    Done(Result<bool, SyncError>),
}

pub enum FolderRunView {
    Reading { edit: FolderEditView },
    Listing { edit: FolderEditView, base: Seq<char>, key: Seq<char> },
    Sending { request: RequestView },
    Done(Result<bool, SyncError>),
}

impl DeepView for FolderRun {
    type V = FolderRunView;

    open spec fn deep_view(&self) -> FolderRunView {
        match self {
            FolderRun::Reading { edit } => FolderRunView::Reading { edit: edit.deep_view() },
            FolderRun::Listing { edit, base, key } => FolderRunView::Listing {
                edit: edit.deep_view(),
                base: base@,
                key: key@,
            },
            FolderRun::Sending { request } => FolderRunView::Sending {
                request: request.deep_view(),
            },
            FolderRun::Done(result) => FolderRunView::Done(*result),
        }
    }
}

impl FolderRunView {
    /// The next action, if there is one.
    pub open spec fn action(self) -> Option<ActionView> {
        match self {
            FolderRunView::Reading { edit } => Some(ActionView::ReadSettings),
            FolderRunView::Listing { edit, base, key } => Some(
                ActionView::Call(categories_call(base, key)),
            ),
            FolderRunView::Sending { request } => Some(ActionView::Call(request)),
            FolderRunView::Done(_) => None,
        }
    }

    /// The state after an event.
    pub open spec fn accept(self, event: EventView) -> FolderRunView {
        match self {
            FolderRunView::Reading { edit } => match event {
                EventView::Settings(s) => match creds_in(s) {
                    Some(creds) => match creds.native() {
                        Some((base, key)) => FolderRunView::Listing { edit, base, key },
                        None => FolderRunView::Done(Ok(false)),
                    },
                    None => FolderRunView::Done(Ok(false)),
                },
                _ => FolderRunView::Done(Err(event.fault())),
            },
            FolderRunView::Listing { edit, base, key } => match event {
                EventView::Categories(categories) => match edit.plan(base, key, categories) {
                    FolderPlanView::Settled(done) => FolderRunView::Done(Ok(done)),
                    FolderPlanView::Send(request) => FolderRunView::Sending { request },
                },
                _ => FolderRunView::Done(Err(event.fault())),
            },
            FolderRunView::Sending { request } => match event {
                EventView::Accepted => FolderRunView::Done(Ok(true)),
                _ => FolderRunView::Done(Err(event.fault())),
            },
            FolderRunView::Done(_) => self,
        }
    }
}

/// Starts to create a folder on the server.
pub fn create_remote_folder(name: &str) -> (r: FolderRun)
    ensures
        r.deep_view() == (FolderRunView::Reading { edit: FolderEditView::Create { name: name@ } }),
{
    FolderRun::Reading { edit: FolderEdit::Create { name: name.to_owned() } }
}

/// Starts to rename a folder on the server.
pub fn rename_remote_folder(old_name: &str, new_name: &str) -> (r: FolderRun)
    ensures
        r.deep_view() == (FolderRunView::Reading {
            edit: FolderEditView::Rename { old_name: old_name@, new_name: new_name@ },
        }),
{
    FolderRun::Reading {
        edit: FolderEdit::Rename { old_name: old_name.to_owned(), new_name: new_name.to_owned() },
    }
}

/// Starts to delete a folder on the server.
pub fn delete_remote_folder(name: &str) -> (r: FolderRun)
    ensures
        r.deep_view() == (FolderRunView::Reading { edit: FolderEditView::Delete { name: name@ } }),
{
    FolderRun::Reading { edit: FolderEdit::Delete { name: name.to_owned() } }
}

/// The native interface that stored settings open.
fn native_of(creds: &Creds) -> (r: Option<(String, String)>)
    ensures
        r.deep_view() == creds.deep_view().native(),
{
    match miniflux_api(creds) {
        Some((base, key)) => Some((base, key.to_owned())),
        None => None,
    }
}

impl FolderRun {
    /// The next action, if the operation is not over.
    pub fn action(&self) -> (r: Option<Action>)
        ensures
            r.deep_view() == self.deep_view().action(),
    {
        match self {
            FolderRun::Reading { edit } => Some(Action::ReadSettings),
            FolderRun::Listing { edit, base, key } => Some(
                Action::Call(miniflux_categories(base.as_str(), key.as_str())),
            ),
            FolderRun::Sending { request } => Some(Action::Call(request.clone())),
            FolderRun::Done(_) => None,
        }
    }

    /// Takes in how the last action ended.
    pub fn accept(self, event: Event) -> (r: Self)
        ensures
            r.deep_view() == self.deep_view().accept(event.deep_view()),
    {
        match self {
            FolderRun::Reading { edit } => match event {
                Event::Settings(s) => match creds(&s) {
                    Some(creds) => match native_of(&creds) {
                        Some((base, key)) => FolderRun::Listing { edit, base, key },
                        None => FolderRun::Done(Ok(false)),
                    },
                    None => FolderRun::Done(Ok(false)),
                },
                _ => FolderRun::Done(Err(event.fault())),
            },
            FolderRun::Listing { edit, base, key } => match event {
                Event::Categories(categories) => match plan_folder(
                    &edit,
                    base.as_str(),
                    key.as_str(),
                    &categories,
                ) {
                    FolderPlan::Settled(done) => FolderRun::Done(Ok(done)),
                    FolderPlan::Send(request) => FolderRun::Sending { request },
                },
                _ => FolderRun::Done(Err(event.fault())),
            },
            FolderRun::Sending { request } => match event {
                Event::Accepted => FolderRun::Done(Ok(true)),
                _ => FolderRun::Done(Err(event.fault())),
            },
            FolderRun::Done(result) => FolderRun::Done(result),
        }
    }
}

/// The titles that are not blank, in order.
pub open spec fn folder_titles(categories: Seq<CategoryView>) -> Seq<Seq<char>>
    decreases categories.len(),
{
    if categories.len() == 0 {
        Seq::empty()
    } else {
        let before = folder_titles(categories.drop_last());
        if text::trimmed(categories.last().title).len() > 0 {
            before.push(categories.last().title)
        } else {
            before
        }
    }
}

fn titles_of(categories: &Vec<MinifluxCategory>) -> (r: Vec<String>)
    ensures
        r.deep_view() == folder_titles(categories.deep_view()),
{
    let ghost all = categories.deep_view();
    let mut r: Vec<String> = Vec::new();
    assert(r.deep_view() =~= folder_titles(all.take(0)));
    for i in 0..categories.len()
        invariant
            all == categories.deep_view(),
            r.deep_view() == folder_titles(all.take(i as int)),
    {
        let ghost had = r.deep_view();
        assert(all.take(i + 1).drop_last() =~= all.take(i as int));
        assert(all.take(i + 1).last() == categories@[i as int].deep_view());
        let title = &categories[i].title;
        if !text::trim(title.as_str()).is_empty() {
            r.push(title.clone());
            assert(r.deep_view() =~= had.push(title@));
        }
    }
    assert(all.take(all.len() as int) =~= all);
    r
}

/// Brings the server's folders over, the empty ones with them. Ends with whether
/// the server listed any.
#[derive(Debug)]
pub enum FolderPull {
    Reading,
    Listing { base: String, key: String },
    Ensuring { titles: Vec<String>, next: usize },
    Done(Result<bool, SyncError>),
}

#[verifier::ext_equal]
pub enum FolderPullView {
    Reading,
    Listing { base: Seq<char>, key: Seq<char> },
    Ensuring { titles: Seq<Seq<char>>, next: nat },
    Done(Result<bool, SyncError>),
}

impl DeepView for FolderPull {
    type V = FolderPullView;

    open spec fn deep_view(&self) -> FolderPullView {
        match self {
            FolderPull::Reading => FolderPullView::Reading,
            FolderPull::Listing { base, key } => FolderPullView::Listing { base: base@, key: key@ },
            FolderPull::Ensuring { titles, next } => FolderPullView::Ensuring {
                titles: titles.deep_view(),
                next: *next as nat,
            },
            FolderPull::Done(result) => FolderPullView::Done(*result),
        }
    }
}

impl FolderPullView {
    /// The next action, if there is one.
    pub open spec fn action(self) -> Option<ActionView> {
        match self {
            FolderPullView::Reading => Some(ActionView::ReadSettings),
            FolderPullView::Listing { base, key } => Some(
                ActionView::Call(categories_call(base, key)),
            ),
            FolderPullView::Ensuring { titles, next } => if next < titles.len() {
                Some(ActionView::EnsureFolder(titles[next as int]))
            } else {
                None
            },
            FolderPullView::Done(_) => None,
        }
    }

    /// The state after an event.
    pub open spec fn accept(self, event: EventView) -> FolderPullView {
        match self {
            FolderPullView::Reading => match event {
                EventView::Settings(s) => match creds_in(s) {
                    Some(creds) => match creds.native() {
                        Some((base, key)) => FolderPullView::Listing { base, key },
                        None => FolderPullView::Done(Ok(false)),
                    },
                    None => FolderPullView::Done(Ok(false)),
                },
                _ => FolderPullView::Done(Err(event.fault())),
            },
            FolderPullView::Listing { base, key } => match event {
                EventView::Categories(categories) => {
                    let titles = folder_titles(categories);
                    if categories.len() == 0 {
                        FolderPullView::Done(Ok(false))
                    } else if titles.len() == 0 {
                        FolderPullView::Done(Ok(true))
                    } else {
                        FolderPullView::Ensuring { titles, next: 0 }
                    }
                },
                _ => FolderPullView::Done(Err(event.fault())),
            },
            FolderPullView::Ensuring { titles, next } => match event {
                EventView::Folder(_) => if next + 1 < titles.len() {
                    FolderPullView::Ensuring { titles, next: next + 1 }
                } else {
                    FolderPullView::Done(Ok(true))
                },
                _ => FolderPullView::Done(Err(event.fault())),
            },
            FolderPullView::Done(_) => self,
        }
    }
}

/// Starts to bring the server's folders over.
pub fn sync_remote_folders() -> (r: FolderPull)
    ensures
        r.deep_view() == FolderPullView::Reading,
{
    FolderPull::Reading
}

impl FolderPull {
    /// The next action, if the operation is not over.
    pub fn action(&self) -> (r: Option<Action>)
        ensures
            r.deep_view() == self.deep_view().action(),
    {
        match self {
            FolderPull::Reading => Some(Action::ReadSettings),
            FolderPull::Listing { base, key } => Some(
                Action::Call(miniflux_categories(base.as_str(), key.as_str())),
            ),
            FolderPull::Ensuring { titles, next } => {
                if *next < titles.len() {
                    Some(Action::EnsureFolder(titles[*next].clone()))
                } else {
                    None
                }
            },
            FolderPull::Done(_) => None,
        }
    }

    /// Takes in how the last action ended.
    pub fn accept(self, event: Event) -> (r: Self)
        ensures
            r.deep_view() == self.deep_view().accept(event.deep_view()),
    {
        match self {
            FolderPull::Reading => match event {
                Event::Settings(s) => match creds(&s) {
                    Some(creds) => match native_of(&creds) {
                        Some((base, key)) => FolderPull::Listing { base, key },
                        None => FolderPull::Done(Ok(false)),
                    },
                    None => FolderPull::Done(Ok(false)),
                },
                _ => FolderPull::Done(Err(event.fault())),
            },
            FolderPull::Listing { base, key } => match event {
                Event::Categories(categories) => {
                    let titles = titles_of(&categories);
                    if categories.len() == 0 {
                        FolderPull::Done(Ok(false))
                    } else if titles.len() == 0 {
                        FolderPull::Done(Ok(true))
                    } else {
                        FolderPull::Ensuring { titles, next: 0 }
                    }
                },
                _ => FolderPull::Done(Err(event.fault())),
            },
            FolderPull::Ensuring { titles, next } => match event {
                Event::Folder(_) => {
                    if next < titles.len() && next + 1 < titles.len() {
                        FolderPull::Ensuring { titles, next: next + 1 }
                    } else {
                        FolderPull::Done(Ok(true))
                    }
                },
                _ => FolderPull::Done(Err(event.fault())),
            },
            FolderPull::Done(result) => FolderPull::Done(result),
        }
    }
}

/// A category is found exactly where there is one with the title.
pub proof fn law_category_found(categories: Seq<CategoryView>, name: Seq<char>)
    ensures
        match category_for(categories, name) {
            Some(id) => exists|k: int|
                0 <= k < categories.len() && (#[trigger] categories[k]).id == id && title_is(
                    categories[k].title,
                    name,
                ),
            None => forall|k: int|
                0 <= k < categories.len() ==> !title_is((#[trigger] categories[k]).title, name),
        },
    decreases categories.len(),
{
    if categories.len() > 0 && !title_is(categories[0].title, name) {
        let rest = categories.drop_first();
        law_category_found(rest, name);
        match category_for(rest, name) {
            Some(id) => {
                let k = choose|k: int|
                    0 <= k < rest.len() && (#[trigger] rest[k]).id == id && title_is(
                        rest[k].title,
                        name,
                    );
                assert(categories[k + 1] == rest[k]);
            },
            None => {
                assert forall|k: int| 0 <= k < categories.len() implies !title_is(
                    (#[trigger] categories[k]).title,
                    name,
                ) by {
                    if k > 0 {
                        assert(rest[k - 1] == categories[k]);
                    }
                }
            },
        }
    }
}

/// A folder that was created is not created again: with a category of the title
/// that was sent, the same edit sends nothing.
pub proof fn law_folder_created_once(
    base: Seq<char>,
    key: Seq<char>,
    categories: Seq<CategoryView>,
    name: Seq<char>,
    id: i64,
)
    ensures
        (FolderEditView::Create { name }).plan(
            base,
            key,
            categories.push(CategoryView { id, title: text::trimmed(name) }),
        ) == FolderPlanView::Settled(true),
{
    let longer = categories.push(CategoryView { id, title: text::trimmed(name) });
    law_category_found(longer, name);
    text::law_trimmed_idempotent(name);
    assert(title_is(longer[categories.len() as int].title, name));
}

/// Without a configured server, without Miniflux or without a key, no folder
/// operation sends anything or changes anything.
pub proof fn law_no_key_no_change(edit: FolderEditView, s: SettingsView)
    requires
        creds_in(s) matches Some(creds) ==> creds.provider != Provider::Miniflux
            || creds.miniflux_api_key is None,
    ensures
        (FolderRunView::Reading { edit }).accept(EventView::Settings(s)) == FolderRunView::Done(
            Ok(false),
        ),
        FolderPullView::Reading.accept(EventView::Settings(s)) == FolderPullView::Done(Ok(false)),
{
}

impl FolderPullView {
    /// The state after the events.
    pub open spec fn run(self, events: Seq<EventView>) -> FolderPullView
        decreases events.len(),
    {
        if events.len() == 0 {
            self
        } else {
            self.run(events.drop_last()).accept(events.last())
        }
    }
}

/// Every folder of the server whose title is not blank is brought over, in
/// order.
pub proof fn law_all_folders_pulled(titles: Seq<Seq<char>>, answers: Seq<EventView>)
    requires
        titles.len() > 0,
        answers.len() <= titles.len(),
        forall|i: int| 0 <= i < answers.len() ==> #[trigger] answers[i] is Folder,
    ensures
        (FolderPullView::Ensuring { titles, next: 0 }).run(answers) == if answers.len()
            < titles.len() {
            FolderPullView::Ensuring { titles, next: answers.len() }
        } else {
            FolderPullView::Done(Ok(true))
        },
        answers.len() < titles.len() ==> (FolderPullView::Ensuring { titles, next: 0 }).run(
            answers,
        ).action() == Some(ActionView::EnsureFolder(titles[answers.len() as int])),
    decreases answers.len(),
{
    if answers.len() > 0 {
        law_all_folders_pulled(titles, answers.drop_last());
        assert(answers[answers.len() - 1] == answers.last());
    }
}

impl FolderPullView {
    /// What holds of the operation at every step.
    pub open spec fn wf(self) -> bool {
        match self {
            FolderPullView::Ensuring { titles, next } => next < titles.len(),
            _ => true,
        }
    }

    /// How far the operation is from its end.
    pub open spec fn left(self) -> (nat, nat) {
        match self {
            FolderPullView::Reading => (2, 0),
            FolderPullView::Listing { base, key } => (1, 0),
            FolderPullView::Ensuring { titles, next } => (0, (titles.len() - next) as nat),
            FolderPullView::Done(_) => (0, 0),
        }
    }
}

/// The first category whose title is the name, without surrounding white space
/// and without regard to the case of ASCII letters, is the one that is deleted or
/// renamed; where there is one, nothing is created.
pub proof fn law_named_folder_addressed(
    base: Seq<char>,
    key: Seq<char>,
    categories: Seq<CategoryView>,
    name: Seq<char>,
    new_name: Seq<char>,
    k: int,
)
    requires
        0 <= k < categories.len(),
        text::same_ignoring_case(text::trimmed(categories[k].title), text::trimmed(name)),
        forall|j: int|
            0 <= j < k ==> !text::same_ignoring_case(
                text::trimmed((#[trigger] categories[j]).title),
                text::trimmed(name),
            ),
    ensures
        (FolderEditView::Delete { name }).plan(base, key, categories) == FolderPlanView::Send(
            RequestView {
                method: Method::Delete,
                url: base + "/v1/categories/"@ + text::signed_decimal(categories[k].id as int),
                headers: seq![("X-Auth-Token"@, key)],
                query: Seq::empty(),
                body: BodyView::Empty,
                expect: Expect::Done,
            },
        ),
        (FolderEditView::Rename { old_name: name, new_name }).plan(base, key, categories)
            == FolderPlanView::Send(
            RequestView {
                method: Method::Put,
                url: base + "/v1/categories/"@ + text::signed_decimal(categories[k].id as int),
                headers: seq![("X-Auth-Token"@, key)],
                query: Seq::empty(),
                body: BodyView::Title(text::trimmed(new_name)),
                expect: Expect::Done,
            },
        ),
        (FolderEditView::Create { name }).plan(base, key, categories) == FolderPlanView::Settled(
            true,
        ),
{
    lemma_first_category(categories, name, k);
}

proof fn lemma_first_category(categories: Seq<CategoryView>, name: Seq<char>, k: int)
    requires
        0 <= k < categories.len(),
        title_is(categories[k].title, name),
        forall|j: int| 0 <= j < k ==> !title_is((#[trigger] categories[j]).title, name),
    ensures
        category_for(categories, name) == Some(categories[k].id),
    decreases k,
{
    if k > 0 {
        let rest = categories.drop_first();
        assert forall|j: int|
            0 <= j < k - 1 implies !title_is((#[trigger] rest[j]).title, name) by {
            assert(rest[j] == categories[j + 1]);
        }
        assert(!title_is(categories[0].title, name));
        lemma_first_category(rest, name, k - 1);
    }
}

/// Without a category of that title nothing is deleted or renamed, and a folder is
/// created under the name without surrounding white space.
pub proof fn law_missing_folder_created(
    base: Seq<char>,
    key: Seq<char>,
    categories: Seq<CategoryView>,
    name: Seq<char>,
    new_name: Seq<char>,
)
    requires
        forall|j: int|
            0 <= j < categories.len() ==> !text::same_ignoring_case(
                text::trimmed((#[trigger] categories[j]).title),
                text::trimmed(name),
            ),
    ensures
        (FolderEditView::Delete { name }).plan(base, key, categories) == FolderPlanView::Settled(
            false,
        ),
        (FolderEditView::Rename { old_name: name, new_name }).plan(base, key, categories)
            == FolderPlanView::Settled(false),
        (FolderEditView::Create { name }).plan(base, key, categories) == FolderPlanView::Send(
            RequestView {
                method: Method::Post,
                url: base + "/v1/categories"@,
                headers: seq![("X-Auth-Token"@, key)],
                query: Seq::empty(),
                body: BodyView::Title(text::trimmed(name)),
                expect: Expect::Done,
            },
        ),
{
    law_category_found(categories, name);
}

/// No category with another title is addressed: what is deleted or renamed is in
/// the server's list under the given name, and is the first there.
pub proof fn law_no_other_folder_addressed(
    base: Seq<char>,
    key: Seq<char>,
    categories: Seq<CategoryView>,
    edit: FolderEditView,
    name: Seq<char>,
    request: RequestView,
)
    requires
        edit matches FolderEditView::Delete { name: deleted } ==> deleted == name,
        edit matches FolderEditView::Rename { old_name, new_name: _ } ==> old_name == name,
        !(edit is Create),
        edit.plan(base, key, categories) == FolderPlanView::Send(request),
    ensures
        exists|k: int|
            #![trigger categories[k]]
            0 <= k < categories.len() && text::same_ignoring_case(
                text::trimmed(categories[k].title),
                text::trimmed(name),
            ) && request.url == base + "/v1/categories/"@ + text::signed_decimal(
                categories[k].id as int,
            ) && forall|j: int|
                0 <= j < k ==> !text::same_ignoring_case(
                    text::trimmed((#[trigger] categories[j]).title),
                    text::trimmed(name),
                ),
{
    law_category_found(categories, name);
    if exists|k: int| 0 <= k < categories.len() && title_is(#[trigger] categories[k].title, name) {
        let k = choose|k: int|
            0 <= k < categories.len() && title_is(#[trigger] categories[k].title, name);
        let first = lemma_earliest(categories, name, k);
        lemma_first_category(categories, name, first);
    }
}

proof fn lemma_earliest(categories: Seq<CategoryView>, name: Seq<char>, k: int) -> (first: int)
    requires
        0 <= k < categories.len(),
        title_is(categories[k].title, name),
    ensures
        0 <= first <= k,
        title_is(categories[first].title, name),
        forall|j: int| 0 <= j < first ==> !title_is((#[trigger] categories[j]).title, name),
    decreases k,
{
    if exists|j: int| 0 <= j < k && title_is((#[trigger] categories[j]).title, name) {
        let j = choose|j: int| 0 <= j < k && title_is((#[trigger] categories[j]).title, name);
        lemma_earliest(categories, name, j)
    } else {
        k
    }
}

/// The native interface is used exactly where the provider is Miniflux and a key is
/// stored: at the stored address, without surrounding white space and trailing
/// slashes, and with that key.
pub proof fn law_native_interface(creds: CredsView)
    ensures
        creds.native() is Some <==> creds.provider is Miniflux && creds.miniflux_api_key is Some,
        creds.native() matches Some((base, key)) ==> base == text::unslashed(
            text::trimmed(creds.url),
        ) && creds.miniflux_api_key == Some(key),
{
}

/// The category list is read from the native interface with the key in the header.
pub proof fn law_categories_request(base: Seq<char>, key: Seq<char>)
    ensures
        categories_call(base, key) == (RequestView {
                method: Method::Get,
                url: base + "/v1/categories"@,
                headers: seq![("X-Auth-Token"@, key)],
                query: Seq::empty(),
                body: BodyView::Empty,
                expect: Expect::Categories,
            }),
{
}

/// A folder edit reads the settings, then the categories, then sends what it comes
/// to, if anything; its outcome is whether the server is as wanted.
pub proof fn law_folder_edit_runs(
    edit: FolderEditView,
    s: SettingsView,
    creds: CredsView,
    key: Seq<char>,
    categories: Seq<CategoryView>,
)
    requires
        creds_in(s) == Some(creds),
        creds.provider is Miniflux,
        creds.miniflux_api_key == Some(key),
    ensures
        (FolderRunView::Reading { edit }).action() == Some(ActionView::ReadSettings),
        (FolderRunView::Reading { edit }).accept(EventView::Settings(s)).action() == Some(
            ActionView::Call(categories_call(text::unslashed(text::trimmed(creds.url)), key)),
        ),
        ({
            let run = (FolderRunView::Reading { edit }).accept(EventView::Settings(s)).accept(
                EventView::Categories(categories),
            );
            match edit.plan(text::unslashed(text::trimmed(creds.url)), key, categories) {
                FolderPlanView::Settled(done) => run == FolderRunView::Done(Ok(done)),
                FolderPlanView::Send(request) => run.action() == Some(ActionView::Call(request))
                    && run.accept(EventView::Accepted) == FolderRunView::Done(Ok(true)),
            }
        }),
{
}

/// Whatever stands in the way ends a folder operation with its error: a failure of
/// the world outside as such, an answer to another question as unexpected.
pub proof fn law_folder_edit_fails(run: FolderRunView, pull: FolderPullView, event: EventView)
    requires
        !(run is Done),
        !(pull is Done),
        event is Unreachable || event is Refused || event is Failed,
    ensures
        run.accept(event) == FolderRunView::Done(Err(SyncError::Outside)),
        pull.accept(event) == FolderPullView::Done(Err(SyncError::Outside)),
{
}

/// The folders that are brought over are those whose title is not blank, under
/// their own titles and in the server's order.
pub proof fn law_folder_titles(categories: Seq<CategoryView>)
    ensures
        folder_titles(categories) == categories.filter(
            |category: CategoryView| text::trimmed(category.title).len() > 0,
        ).map_values(|category: CategoryView| category.title),
    decreases categories.len(),
{
    let named = |category: CategoryView| text::trimmed(category.title).len() > 0;
    let title = |category: CategoryView| category.title;
    reveal(Seq::filter);
    if categories.len() > 0 {
        law_folder_titles(categories.drop_last());
        let before = categories.drop_last().filter(named);
        if named(categories.last()) {
            assert(before.push(categories.last()).map_values(title) =~= before.map_values(
                title,
            ).push(categories.last().title));
        }
    } else {
        assert(categories.filter(named).map_values(title) =~= Seq::<Seq<char>>::empty());
    }
}

/// The folders are asked for with the stored key, and each that has a title is
/// brought over; the outcome says whether the server had any category.
pub proof fn law_folders_pulled_from_list(
    s: SettingsView,
    creds: CredsView,
    key: Seq<char>,
    categories: Seq<CategoryView>,
)
    requires
        creds_in(s) == Some(creds),
        creds.provider is Miniflux,
        creds.miniflux_api_key == Some(key),
    ensures
        FolderPullView::Reading.action() == Some(ActionView::ReadSettings),
        FolderPullView::Reading.accept(EventView::Settings(s)).action() == Some(
            ActionView::Call(categories_call(text::unslashed(text::trimmed(creds.url)), key)),
        ),
        ({
            let pull = FolderPullView::Reading.accept(EventView::Settings(s)).accept(
                EventView::Categories(categories),
            );
            let titles = folder_titles(categories);
            &&& categories.len() == 0 ==> pull == FolderPullView::Done(Ok(false))
            &&& categories.len() > 0 && titles.len() == 0 ==> pull == FolderPullView::Done(Ok(true))
            &&& titles.len() > 0 ==> pull == FolderPullView::Ensuring { titles, next: 0 }
        }),
{
    if categories.len() == 0 {
        assert(folder_titles(categories).len() == 0);
    }
}

}
