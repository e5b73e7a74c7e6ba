//! Subscriptions: which local feeds the server lacks, and the edits that carry a
//! local change of one subscription over to the server.
use vstd::hash_set::StringHashSet;
use vstd::prelude::*;

use crate::data::{Sub, SubCat, SubCatView, SubView};
use crate::greader::{Session, SessionView};
use crate::http::{Request, RequestView};
use crate::opening::{Opening, OpeningView};
use crate::settings::{creds_in, CredsView, SettingsView};
use crate::tags::{
    folder_tag, label_tag, stream_of, subscription_stream, tag_of_category, tag_of_folder,
};
use crate::text;
use crate::world::{Action, ActionView, Event, EventView, SyncError};

verus! {

/// The local addresses that are not among the server's.
pub open spec fn local_only(local: Seq<Seq<char>>, server: Seq<Seq<char>>) -> Seq<Seq<char>> {
    local.filter(|url: Seq<char>| !server.contains(url))
}

fn set_of(urls: &[String]) -> (r: StringHashSet)
    ensures
        forall|url: Seq<char>| r@.contains(url) <==> urls.deep_view().contains(url),
{
    let mut set = StringHashSet::new();
    let mut i: usize = 0;
    while i < urls.len()
        invariant
            i <= urls.len(),
            forall|url: Seq<char>|
                set@.contains(url) <==> urls.deep_view().take(i as int).contains(url),
        decreases urls.len() - i,
    {
        let ghost shorter = urls.deep_view().take(i as int);
        let ghost longer = urls.deep_view().take(i + 1);
        proof {
            assert(longer =~= shorter.push(urls@[i as int]@));
            assert forall|url: Seq<char>| longer.contains(url) <==> (shorter.contains(url) || url
                == urls@[i as int]@) by {
                if shorter.contains(url) {
                    let k = choose|k: int| 0 <= k < shorter.len() && shorter[k] == url;
                    assert(longer[k] == url);
                }
                if url == urls@[i as int]@ {
                    assert(longer[i as int] == url);
                }
            }
        }
        set.insert(urls[i].clone());
        i = i + 1;
    }
    assert(urls.deep_view().take(urls.len() as int) =~= urls.deep_view());
    set
}

/// Local feed addresses that the server does not carry yet, so that each can be
/// subscribed there.
pub fn feeds_to_push<'a>(local: &'a [String], server: &[String]) -> (r: Vec<&'a str>)
    ensures
        r.deep_view() == local_only(local.deep_view(), server.deep_view()),
{
    let known = set_of(server);
    let ghost keep = |url: Seq<char>| !server.deep_view().contains(url);
    let mut r: Vec<&'a str> = Vec::new();
    let mut i: usize = 0;
    proof {
        reveal(Seq::filter);
        assert(r.deep_view() =~= local.deep_view().take(0).filter(keep));
    }
    while i < local.len()
        invariant
            i <= local.len(),
            keep == (|url: Seq<char>| !server.deep_view().contains(url)),
            forall|url: Seq<char>| known@.contains(url) <==> server.deep_view().contains(url),
            r.deep_view() == local.deep_view().take(i as int).filter(keep),
        decreases local.len() - i,
    {
        let url = local[i].as_str();
        let ghost had = r.deep_view();
        proof {
            let shorter = local.deep_view().take(i as int);
            assert(local.deep_view().take(i + 1) =~= shorter.push(url@));
            shorter.lemma_filter_push(url@, keep);
        }
        if !known.contains(url) {
            r.push(url);
            assert(r.deep_view() =~= had.push(url@));
        }
        i = i + 1;
    }
    assert(local.deep_view().take(local.len() as int) =~= local.deep_view());
    r
}

/// The first subscription to a feed address.
pub open spec fn sub_for(subs: Seq<SubView>, url: Seq<char>) -> Option<SubView>
    decreases subs.len(),
{
    if subs.len() == 0 {
        None
    } else if subs[0].url == Some(url) {
        Some(subs[0])
    } else {
        sub_for(subs.drop_first(), url)
    }
}

fn find_sub(subs: &Vec<Sub>, url: &str) -> (r: Option<usize>)
    ensures
        match r {
            Some(i) => i < subs.len() && sub_for(subs.deep_view(), url@) == Some(
                subs.deep_view()[i as int],
            ),
            None => sub_for(subs.deep_view(), url@) is None,
        },
{
    let ghost all = subs.deep_view();
    assert(all.skip(0) =~= all);
    for i in 0..subs.len()
        invariant
            all == subs.deep_view(),
            sub_for(all, url@) == sub_for(all.skip(i as int), url@),
    {
        let ghost rest = all.skip(i as int);
        assert(rest[0] == subs@[i as int].deep_view());
        assert(rest.drop_first() =~= all.skip(i + 1));
        match &subs[i].url {
            Some(u) => {
                if text::same(u.as_str(), url) {
                    return Some(i);
                }
            },
            None => {},
        }
    }
    None
}

/// The tags of the folders that the categories stand for, except `keep`.
pub open spec fn tags_except(
    categories: Seq<SubCatView>,
    keep: Option<Seq<char>>,
) -> Seq<Seq<char>>
    decreases categories.len(),
{
    if categories.len() == 0 {
        Seq::empty()
    } else {
        let before = tags_except(categories.drop_last(), keep);
        match tag_of_category(categories.last()) {
            Some(tag) => if keep == Some(tag) {
                before
            } else {
                before.push(tag)
            },
            None => before,
        }
    }
}

fn tags_to_remove(categories: &Vec<SubCat>, keep: &Option<String>) -> (r: Vec<String>)
    ensures
        r.deep_view() == tags_except(categories.deep_view(), keep.deep_view()),
{
    let ghost all = categories.deep_view();
    let mut r: Vec<String> = Vec::new();
    assert(r.deep_view() =~= tags_except(all.take(0), keep.deep_view()));
    for i in 0..categories.len()
        invariant
            all == categories.deep_view(),
            r.deep_view() == tags_except(all.take(i as int), keep.deep_view()),
    {
        let ghost had = r.deep_view();
        assert(all.take(i + 1).drop_last() =~= all.take(i as int));
        assert(all.take(i + 1).last() == categories@[i as int].deep_view());
        match folder_tag(&categories[i]) {
            Some(tag) => {
                let kept = match keep {
                    Some(k) => text::same(k.as_str(), tag.as_str()),
                    None => false,
                };
                if !kept {
                    r.push(tag);
                    assert(r.deep_view() =~= had.push(tag@));
                }
            },
            None => {},
        }
    }
    assert(all.take(all.len() as int) =~= all);
    r
}

/// A local change of one subscription.
#[derive(Debug)]
pub enum Edit {
    Unsubscribe { url: String },
    Replace { old_url: String, new_url: String },
    SetFolder { url: String, folder: Option<String> },
}

pub enum EditView {
    Unsubscribe { url: Seq<char> },
    Replace { old_url: Seq<char>, new_url: Seq<char> },
    SetFolder { url: Seq<char>, folder: Option<Seq<char>> },
}

impl DeepView for Edit {
    type V = EditView;

    open spec fn deep_view(&self) -> EditView {
        match self {
            Edit::Unsubscribe { url } => EditView::Unsubscribe { url: url@ },
            Edit::Replace { old_url, new_url } => EditView::Replace {
                old_url: old_url@,
                new_url: new_url@,
            },
            Edit::SetFolder { url, folder } => EditView::SetFolder {
                url: url@,
                folder: folder.deep_view(),
            },
        }
    }
}

impl EditView {
    /// The requests that carry the edit out, in order, or `None` where the
    /// server has no such subscription to change. A folder is set on a feed that
    /// the server does not carry yet by subscribing to it first.
    pub open spec fn calls(self, session: SessionView, subs: Seq<SubView>) -> Option<
        Seq<RequestView>,
    > {
        match self {
            EditView::Unsubscribe { url } => match sub_for(subs, url) {
                Some(sub) => Some(seq![session.unsubscribe_call(stream_of(sub, url))]),
                None => None,
            },
            EditView::Replace { old_url, new_url } => match sub_for(subs, old_url) {
                Some(sub) => Some(
                    seq![
                        session.unsubscribe_call(stream_of(sub, old_url)),
                        session.subscribe_call(new_url),
                    ],
                ),
                None => None,
            },
            EditView::SetFolder { url, folder } => match sub_for(subs, url) {
                Some(sub) => {
                    let keep = match folder {
                        Some(name) => Some(tag_of_folder(name)),
                        None => None,
                    };
                    Some(
                        seq![
                            session.folder_call(
                                stream_of(sub, url),
                                tags_except(sub.categories, keep),
                                folder,
                            ),
                        ],
                    )
                },
                None => Some(
                    seq![
                        session.subscribe_call(url),
                        session.folder_call("feed/"@ + url, Seq::empty(), folder),
                    ],
                ),
            },
        }
    }
}

fn folder_str(folder: &Option<String>) -> (r: Option<&str>)
    ensures
        r.deep_view() == folder.deep_view(),
{
    match folder {
        Some(name) => Some(name.as_str()),
        None => None,
    }
}

/// The requests that carry an edit out.
pub fn plan_edit(edit: &Edit, session: &Session, subs: &Vec<Sub>) -> (r: Option<Vec<Request>>)
    ensures
        r.deep_view() == edit.deep_view().calls(session.deep_view(), subs.deep_view()),
{
    let mut calls: Vec<Request> = Vec::new();
    match edit {
        Edit::Unsubscribe { url } => match find_sub(subs, url.as_str()) {
            Some(i) => {
                let stream = subscription_stream(&subs[i], url.as_str());
                calls.push(session.unsubscribe_stream(stream.as_str()));
            },
            None => {
                return None;
            },
        },
        Edit::Replace { old_url, new_url } => match find_sub(subs, old_url.as_str()) {
            Some(i) => {
                let stream = subscription_stream(&subs[i], old_url.as_str());
                calls.push(session.unsubscribe_stream(stream.as_str()));
                calls.push(session.subscribe_url(new_url.as_str()));
            },
            None => {
                return None;
            },
        },
        Edit::SetFolder { url, folder } => match find_sub(subs, url.as_str()) {
            Some(i) => {
                let stream = subscription_stream(&subs[i], url.as_str());
                let keep = match folder {
                    Some(name) => Some(label_tag(name.as_str())),
                    None => None,
                };
                let remove = tags_to_remove(&subs[i].categories, &keep);
                calls.push(
                    session.set_subscription_folder(
                        stream.as_str(),
                        remove.as_slice(),
                        folder_str(folder),
                    ),
                );
            },
            None => {
                let stream = text::join("feed/", url.as_str());
                let none: Vec<String> = Vec::new();
                let remove = none.as_slice();
                assert(remove.deep_view() =~= Seq::<Seq<char>>::empty());
                calls.push(session.subscribe_url(url.as_str()));
                calls.push(
                    session.set_subscription_folder(
                        stream.as_str(),
                        remove,
                        folder_str(folder),
                    ),
                );
            },
        },
    }
    assert(calls.deep_view() =~= edit.deep_view().calls(
        session.deep_view(),
        subs.deep_view(),
    )->0);
    Some(calls)
}

/// Carries an edit over to the server. Ends with whether the server was changed.
#[derive(Debug)]
pub enum EditRun {
    Opening { edit: Edit, opening: Opening },
    Listing { edit: Edit, session: Session },
    Sending { calls: Vec<Request>, next: usize },
    Done(Result<bool, SyncError>),
}

#[verifier::ext_equal]
pub enum EditRunView {
    Opening { edit: EditView, opening: OpeningView },
    Listing { edit: EditView, session: SessionView },
    Sending { calls: Seq<RequestView>, next: nat },
    Done(Result<bool, SyncError>),
}

impl DeepView for EditRun {
    type V = EditRunView;

    open spec fn deep_view(&self) -> EditRunView {
        match self {
            EditRun::Opening { edit, opening } => EditRunView::Opening {
                edit: edit.deep_view(),
                opening: opening.deep_view(),
            },
            EditRun::Listing { edit, session } => EditRunView::Listing {
                edit: edit.deep_view(),
                session: session.deep_view(),
            },
            EditRun::Sending { calls, next } => EditRunView::Sending {
                calls: calls.deep_view(),
                next: *next as nat,
            },
            EditRun::Done(result) => EditRunView::Done(*result),
        }
    }
}

impl EditRunView {
    /// The state before the first event.
    pub open spec fn start(edit: EditView) -> EditRunView {
        EditRunView::Opening { edit, opening: OpeningView::Reading }
    }

    /// The next action, if there is one.
    pub open spec fn action(self) -> Option<ActionView> {
        match self {
            EditRunView::Opening { edit, opening } => opening.action(),
            EditRunView::Listing { edit, session } => Some(ActionView::Call(session.list_call())),
            EditRunView::Sending { calls, next } => if next < calls.len() {
                Some(ActionView::Call(calls[next as int]))
            } else {
                None
            },
            EditRunView::Done(_) => None,
        }
    }

    /// The state after an event.
    pub open spec fn accept(self, event: EventView) -> EditRunView {
        match self {
            EditRunView::Opening { edit, opening } => match opening.accept(event) {
                OpeningView::Ready { creds, session } => EditRunView::Listing { edit, session },
                OpeningView::Closed => EditRunView::Done(Ok(false)),
                OpeningView::Broken(error) => EditRunView::Done(Err(error)),
                opening => EditRunView::Opening { edit, opening },
            },
            EditRunView::Listing { edit, session } => match event {
                EventView::Subscriptions(subs) => match edit.calls(session, subs) {
                    Some(calls) => EditRunView::Sending { calls, next: 0 },
                    None => EditRunView::Done(Ok(false)),
                },
                _ => EditRunView::Done(Err(event.fault())),
            },
            EditRunView::Sending { calls, next } => match event {
                EventView::Accepted => if next + 1 < calls.len() {
                    EditRunView::Sending { calls, next: next + 1 }
                } else {
                    EditRunView::Done(Ok(true))
                },
                _ => EditRunView::Done(Err(event.fault())),
            },
            EditRunView::Done(_) => self,
        }
    }
}

/// Starts the best-effort end of one subscription on the server, by feed
/// address.
pub fn unsubscribe_subscription_url(url: &str) -> (r: EditRun)
    ensures
        r.deep_view() == EditRunView::start(EditView::Unsubscribe { url: url@ }),
{
    EditRun::Opening {
        edit: Edit::Unsubscribe { url: url.to_owned() },
        opening: Opening::Reading,
    }
}

/// Starts to carry a changed feed address over to the server. Without it the
/// next synchronisation would bring the old subscription back as a second feed.
pub fn replace_subscription_url(old_url: &str, new_url: &str) -> (r: EditRun)
    ensures
        r.deep_view() == EditRunView::start(
            EditView::Replace { old_url: old_url@, new_url: new_url@ },
        ),
{
    EditRun::Opening {
        edit: Edit::Replace { old_url: old_url.to_owned(), new_url: new_url.to_owned() },
        opening: Opening::Reading,
    }
}

/// Starts to carry the move of a feed into or out of a folder over to the
/// server.
pub fn set_subscription_folder_url(url: &str, folder: Option<&str>) -> (r: EditRun)
    ensures
        r.deep_view() == EditRunView::start(
            EditView::SetFolder { url: url@, folder: folder.deep_view() },
        ),
{
    EditRun::Opening {
        edit: Edit::SetFolder {
            url: url.to_owned(),
            folder: match folder {
                Some(name) => Some(name.to_owned()),
                None => None,
            },
        },
        opening: Opening::Reading,
    }
}

impl EditRun {
    /// The next action, if the operation is not over.
    pub fn action(&self) -> (r: Option<Action>)
        ensures
            r.deep_view() == self.deep_view().action(),
    {
        match self {
            EditRun::Opening { edit, opening } => opening.action(),
            EditRun::Listing { edit, session } => Some(Action::Call(session.list_subscriptions())),
            EditRun::Sending { calls, next } => {
                if *next < calls.len() {
                    Some(Action::Call(calls[*next].clone()))
                } else {
                    None
                }
            },
            EditRun::Done(_) => None,
        }
    }

    /// Takes in how the last action ended.
    pub fn accept(self, event: Event) -> (r: Self)
        ensures
            r.deep_view() == self.deep_view().accept(event.deep_view()),
    {
        match self {
            EditRun::Opening { edit, opening } => match opening.accept(event) {
                Opening::Ready { creds, session } => EditRun::Listing { edit, session },
                Opening::Closed => EditRun::Done(Ok(false)),
                Opening::Broken(error) => EditRun::Done(Err(error)),
                opening => EditRun::Opening { edit, opening },
            },
            EditRun::Listing { edit, session } => match event {
                Event::Subscriptions(subs) => match plan_edit(&edit, &session, &subs) {
                    Some(calls) => EditRun::Sending { calls, next: 0 },
                    None => EditRun::Done(Ok(false)),
                },
                _ => EditRun::Done(Err(event.fault())),
            },
            EditRun::Sending { calls, next } => match event {
                Event::Accepted => {
                    if next < calls.len() && next + 1 < calls.len() {
                        EditRun::Sending { calls, next: next + 1 }
                    } else {
                        EditRun::Done(Ok(true))
                    }
                },
                _ => EditRun::Done(Err(event.fault())),
            },
            EditRun::Done(result) => EditRun::Done(result),
        }
    }
}

/// Exactly the local feeds that the server lacks are selected.
pub proof fn law_selects_local_only(local: Seq<Seq<char>>, server: Seq<Seq<char>>)
    ensures
        forall|url: Seq<char>|
            local_only(local, server).contains(url) <==> local.contains(url) && !server.contains(
                url,
            ),
{
    let keep = |url: Seq<char>| !server.contains(url);
    assert forall|url: Seq<char>|
        local_only(local, server).contains(url) <==> local.contains(url) && !server.contains(
            url,
        ) by {
        if local_only(local, server).contains(url) {
            let i = choose|i: int|
                0 <= i < local.filter(keep).len() && local.filter(keep)[i] == url;
            local.lemma_filter_pred(keep, i);
            lemma_filter_from(local, keep, i);
        }
        if local.contains(url) && !server.contains(url) {
            let i = choose|i: int| 0 <= i < local.len() && local[i] == url;
            assert(keep(local[i]));
            local.lemma_filter_contains(keep, i);
        }
    }
}

proof fn lemma_filter_from(s: Seq<Seq<char>>, keep: spec_fn(Seq<char>) -> bool, i: int)
    requires
        0 <= i < s.filter(keep).len(),
    ensures
        s.contains(s.filter(keep)[i]),
    decreases s.len(),
{
    reveal(Seq::filter);
    let shorter = s.drop_last();
    if i < shorter.filter(keep).len() {
        lemma_filter_from(shorter, keep, i);
        let k = choose|k: int| 0 <= k < shorter.len() && shorter[k] == shorter.filter(keep)[i];
        assert(s[k] == shorter[k]);
    } else {
        assert(s.filter(keep)[i] == s.last());
    }
}

/// Once the server has been subscribed to the selected feeds, it lacks none: the
/// two lists converge.
pub proof fn law_lists_converge(local: Seq<Seq<char>>, server: Seq<Seq<char>>)
    ensures
        local_only(local, server + local_only(local, server)).len() == 0,
{
    let new = local_only(local, server);
    law_selects_local_only(local, server);
    law_selects_local_only(local, server + new);
    let left = local_only(local, server + new);
    if left.len() > 0 {
        let url = left[0];
        assert(left.contains(url));
        assert(!server.contains(url)) by {
            if server.contains(url) {
                let k = choose|k: int| 0 <= k < server.len() && server[k] == url;
                assert((server + new)[k] == url);
            }
        }
        assert(new.contains(url));
        let k = choose|k: int| 0 <= k < new.len() && new[k] == url;
        assert((server + new)[server.len() + k] == url);
    }
}

/// The subscription that is found is the first one to the address, and one is
/// found where there is any.
pub proof fn law_subscription_found(subs: Seq<SubView>, url: Seq<char>)
    ensures
        match sub_for(subs, url) {
            Some(sub) => exists|k: int|
                0 <= k < subs.len() && #[trigger] subs[k] == sub && sub.url == Some(url)
                    && forall|j: int| 0 <= j < k ==> (#[trigger] subs[j]).url != Some(url),
            None => forall|k: int| 0 <= k < subs.len() ==> (#[trigger] subs[k]).url != Some(url),
        },
    decreases subs.len(),
{
    if subs.len() > 0 && subs[0].url != Some(url) {
        let rest = subs.drop_first();
        law_subscription_found(rest, url);
        match sub_for(rest, url) {
            Some(sub) => {
                let k = choose|k: int|
                    0 <= k < rest.len() && #[trigger] rest[k] == sub && sub.url == Some(url)
                        && forall|j: int| 0 <= j < k ==> (#[trigger] rest[j]).url != Some(url);
                assert(subs[k + 1] == sub);
                assert forall|j: int| 0 <= j < k + 1 implies (#[trigger] subs[j]).url != Some(
                    url,
                ) by {
                    if j > 0 {
                        assert(rest[j - 1] == subs[j]);
                    }
                }
            },
            None => {
                assert forall|k: int| 0 <= k < subs.len() implies (#[trigger] subs[k]).url != Some(
                    url,
                ) by {
                    if k > 0 {
                        assert(rest[k - 1] == subs[k]);
                    }
                }
            },
        }
    }
}

/// Filing a subscription under a folder takes exactly the tags of its other
/// folders off it, and never the tag of the folder itself.
pub proof fn law_other_folders_removed(categories: Seq<SubCatView>, keep: Option<Seq<char>>)
    ensures
        forall|tag: Seq<char>|
            tags_except(categories, keep).contains(tag) <==> keep != Some(tag) && exists|k: int|
                0 <= k < categories.len() && tag_of_category(#[trigger] categories[k]) == Some(
                    tag,
                ),
    decreases categories.len(),
{
    if categories.len() > 0 {
        let shorter = categories.drop_last();
        let before = tags_except(shorter, keep);
        let all = tags_except(categories, keep);
        law_other_folders_removed(shorter, keep);
        assert forall|tag: Seq<char>|
            all.contains(tag) <==> keep != Some(tag) && exists|k: int|
                0 <= k < categories.len() && tag_of_category(#[trigger] categories[k]) == Some(
                    tag,
                ) by {
            if all.contains(tag) {
                let i = choose|i: int| 0 <= i < all.len() && all[i] == tag;
                if i < before.len() {
                    assert(before[i] == tag);
                    assert(before.contains(tag));
                    let k = choose|k: int|
                        0 <= k < shorter.len() && tag_of_category(#[trigger] shorter[k]) == Some(
                            tag,
                        );
                    assert(categories[k] == shorter[k]);
                } else {
                    assert(categories[categories.len() - 1] == categories.last());
                }
            }
            if keep != Some(tag) && exists|k: int|
                0 <= k < categories.len() && tag_of_category(#[trigger] categories[k]) == Some(
                    tag,
                ) {
                let k = choose|k: int|
                    0 <= k < categories.len() && tag_of_category(#[trigger] categories[k]) == Some(
                        tag,
                    );
                if k < shorter.len() {
                    assert(shorter[k] == categories[k]);
                    assert(before.contains(tag));
                    let i = choose|i: int| 0 <= i < before.len() && before[i] == tag;
                    assert(all[i] == tag);
                } else {
                    assert(all[before.len() as int] == tag);
                }
            }
        }
    }
}

impl EditRunView {
    /// The state after the events.
    pub open spec fn run(self, events: Seq<EventView>) -> EditRunView
        decreases events.len(),
    {
        if events.len() == 0 {
            self
        } else {
            self.run(events.drop_last()).accept(events.last())
        }
    }
}

/// The requests of an edit are sent one after the other, each only once the one
/// before it has been accepted; when all have been accepted, the edit succeeds.
pub proof fn law_edit_sends_in_order(calls: Seq<RequestView>, replies: Seq<EventView>)
    requires
        calls.len() > 0,
        replies.len() <= calls.len(),
        forall|i: int| 0 <= i < replies.len() ==> #[trigger] replies[i] == EventView::Accepted,
    ensures
        (EditRunView::Sending { calls, next: 0 }).run(replies) == if replies.len() < calls.len() {
            EditRunView::Sending { calls, next: replies.len() }
        } else {
            EditRunView::Done(Ok(true))
        },
        replies.len() < calls.len() ==> (EditRunView::Sending { calls, next: 0 }).run(
            replies,
        ).action() == Some(ActionView::Call(calls[replies.len() as int])),
    decreases replies.len(),
{
    if replies.len() > 0 {
        law_edit_sends_in_order(calls, replies.drop_last());
        assert(replies[replies.len() - 1] == replies.last());
    }
}

/// A request of an edit that fails ends it with an error; nothing more is sent.
pub proof fn law_edit_stops_at_failure(calls: Seq<RequestView>, next: nat, event: EventView)
    requires
        event != EventView::Accepted,
    ensures
        (EditRunView::Sending { calls, next }).accept(event) == EditRunView::Done(
            Err(event.fault()),
        ),
        (EditRunView::Sending { calls, next }).accept(event).action() is None,
{
}

/// Without a configured server an edit ends at once, with nothing sent.
pub proof fn law_edit_needs_connection(edit: EditView, s: SettingsView)
    requires
        creds_in(s) is None,
    ensures
        EditRunView::start(edit).accept(EventView::Settings(s)) == EditRunView::Done(Ok(false)),
{
}

/// A subscription that the server does not have is neither ended nor replaced.
pub proof fn law_unknown_subscription_left_alone(
    session: SessionView,
    subs: Seq<SubView>,
    url: Seq<char>,
    new_url: Seq<char>,
)
    requires
        sub_for(subs, url) is None,
    ensures
        (EditRunView::Listing { edit: EditView::Unsubscribe { url }, session }).accept(
            EventView::Subscriptions(subs),
        ) == EditRunView::Done(Ok(false)),
        (EditRunView::Listing {
            edit: EditView::Replace { old_url: url, new_url },
            session,
        }).accept(EventView::Subscriptions(subs)) == EditRunView::Done(Ok(false)),
{
}

impl EditRunView {
    /// What holds of the edit at every step.
    pub open spec fn wf(self) -> bool {
        match self {
            EditRunView::Opening { edit, opening } => !(opening is Closed) && !(opening is Ready)
                && !(opening is Broken),
            EditRunView::Sending { calls, next } => next < calls.len(),
            _ => true,
        }
    }
}

/// Whatever the server and the store answer, an edit names a next action until it
/// has ended.
pub proof fn law_edit_never_stuck(edit: EditView, events: Seq<EventView>)
    ensures
        EditRunView::start(edit).run(events).wf(),
        EditRunView::start(edit).run(events) is Done || EditRunView::start(edit).run(
            events,
        ).action() is Some,
    decreases events.len(),
{
    if events.len() > 0 {
        law_edit_never_stuck(edit, events.drop_last());
    }
}

/// The selection goes through the local feeds in order: each that the server lacks
/// is taken, as often as it stands there.
pub proof fn law_selection_in_order(
    local: Seq<Seq<char>>,
    server: Seq<Seq<char>>,
    url: Seq<char>,
)
    ensures
        local_only(Seq::empty(), server).len() == 0,
        local_only(local.push(url), server) == if server.contains(url) {
            local_only(local, server)
        } else {
            local_only(local, server).push(url)
        },
{
    reveal(Seq::filter);
    assert(local.push(url).drop_last() =~= local);
}

/// The tags that are taken off a subscription stand in the order of its
/// categories, one for each that stands for a folder other than the one kept.
pub proof fn law_removed_tags_in_order(
    categories: Seq<SubCatView>,
    category: SubCatView,
    keep: Option<Seq<char>>,
)
    ensures
        tags_except(Seq::empty(), keep).len() == 0,
        tags_except(categories.push(category), keep) == if tag_of_category(category) is None
            || tag_of_category(category) == keep {
            tags_except(categories, keep)
        } else {
            tags_except(categories, keep).push(tag_of_category(category)->0)
        },
{
    assert(categories.push(category).drop_last() =~= categories);
}

proof fn lemma_first_sub(subs: Seq<SubView>, url: Seq<char>, k: int)
    requires
        0 <= k < subs.len(),
        subs[k].url == Some(url),
        forall|j: int| 0 <= j < k ==> (#[trigger] subs[j]).url != Some(url),
    ensures
        sub_for(subs, url) == Some(subs[k]),
    decreases k,
{
    if k > 0 {
        let rest = subs.drop_first();
        assert(subs[0].url != Some(url));
        assert forall|j: int| 0 <= j < k - 1 implies (#[trigger] rest[j]).url != Some(url) by {
            assert(rest[j] == subs[j + 1]);
        }
        lemma_first_sub(rest, url, k - 1);
    }
}

/// An edit of a feed that the server carries addresses the first subscription to
/// it, by the server's id or else by the address behind `feed/`. To end it takes
/// one request; to change its address one more, for the new address; and to file
/// it one, which takes every other folder's tag off it.
pub proof fn law_edit_of_known_feed(
    session: SessionView,
    subs: Seq<SubView>,
    k: int,
    url: Seq<char>,
    new_url: Seq<char>,
    folder: Option<Seq<char>>,
)
    requires
        0 <= k < subs.len(),
        subs[k].url == Some(url),
        forall|j: int| 0 <= j < k ==> (#[trigger] subs[j]).url != Some(url),
    ensures
        ({
            let stream = if subs[k].id.len() > 0 {
                subs[k].id
            } else {
                "feed/"@ + url
            };
            &&& (EditView::Unsubscribe { url }).calls(session, subs) == Some(
                seq![session.unsubscribe_call(stream)],
            )
            &&& (EditView::Replace { old_url: url, new_url }).calls(session, subs) == Some(
                seq![session.unsubscribe_call(stream), session.subscribe_call(new_url)],
            )
            &&& (EditView::SetFolder { url, folder }).calls(session, subs) == Some(
                seq![
                    session.folder_call(
                        stream,
                        tags_except(
                            subs[k].categories,
                            if folder is Some {
                                Some("user/-/label/"@ + text::trimmed(folder->0))
                            } else {
                                None
                            },
                        ),
                        folder,
                    ),
                ],
            )
        }),
{
    lemma_first_sub(subs, url, k);
}

/// A feed that the server does not carry is subscribed to before it is filed, with
/// nothing to take off it; there is nothing to end and nothing to replace.
pub proof fn law_edit_of_unknown_feed(
    session: SessionView,
    subs: Seq<SubView>,
    url: Seq<char>,
    new_url: Seq<char>,
    folder: Option<Seq<char>>,
)
    requires
        forall|j: int| 0 <= j < subs.len() ==> (#[trigger] subs[j]).url != Some(url),
    ensures
        (EditView::Unsubscribe { url }).calls(session, subs) is None,
        (EditView::Replace { old_url: url, new_url }).calls(session, subs) is None,
        (EditView::SetFolder { url, folder }).calls(session, subs) == Some(
            seq![
                session.subscribe_call(url),
                session.folder_call("feed/"@ + url, Seq::empty(), folder),
            ],
        ),
{
    law_subscription_found(subs, url);
}

/// An edit opens a session, asks for the subscription list, and then sends the
/// requests that the edit comes to on that list.
pub proof fn law_edit_goes_by_the_list(
    edit: EditView,
    opening: OpeningView,
    event: EventView,
    creds: CredsView,
    session: SessionView,
    subs: Seq<SubView>,
)
    requires
        opening.accept(event) == (OpeningView::Ready { creds, session }),
    ensures
        EditRunView::start(edit) == (EditRunView::Opening { edit, opening: OpeningView::Reading }),
        (EditRunView::Opening { edit, opening }).action() == opening.action(),
        ({
            let listing = (EditRunView::Opening { edit, opening }).accept(event);
            let sending = listing.accept(EventView::Subscriptions(subs));
            &&& listing.action() == Some(ActionView::Call(session.list_call()))
            &&& edit.calls(session, subs) matches Some(calls) ==> sending
                == EditRunView::Sending { calls, next: 0 }
            &&& edit.calls(session, subs) is None ==> sending == EditRunView::Done(Ok(false))
        }),
{
}

/// A failure before the requests of an edit are sent ends it with that error.
pub proof fn law_edit_fails_early(
    edit: EditView,
    opening: OpeningView,
    session: SessionView,
    event: EventView,
)
    requires
        event is Unreachable || event is Refused || event is Failed,
    ensures
        (EditRunView::Listing { edit, session }).accept(event) == EditRunView::Done(
            Err(SyncError::Outside),
        ),
        opening.accept(event) matches OpeningView::Broken(error) ==> (EditRunView::Opening {
            edit,
            opening,
        }).accept(event) == EditRunView::Done(Err(error)),
{
}

}
