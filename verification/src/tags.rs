//! State tags, labels and folders.
use vstd::prelude::*;

use crate::data::{Sub, SubCat, SubCatView, SubView};
use crate::text;

verus! {

pub const READ_TAG: &'static str = "user/-/state/com.google/read";

pub const STARRED_TAG: &'static str = "user/-/state/com.google/starred";

pub const READING_LIST: &'static str = "user/-/state/com.google/reading-list";

/// `category` is `tag`, or the form of it that names a particular user.
pub open spec fn carries(category: Seq<char>, tag: Seq<char>) -> bool {
    category == tag || text::without_prefixes(tag, "user/-"@).is_suffix_of(category)
}

/// One of `categories` carries `tag`.
pub open spec fn tagged(categories: Seq<Seq<char>>, tag: Seq<char>) -> bool {
    exists|i: int| 0 <= i < categories.len() && carries(#[trigger] categories[i], tag)
}

/// Decides whether `categories` carries `tag`, either in the form `user/-/...`
/// or in the form `user/<id>/...` that Miniflux emits.
pub fn has_state_tag(categories: &[String], tag: &str) -> (r: bool)
    ensures
        r == tagged(categories.deep_view(), tag@),
{
    let tail = text::trim_start_all(tag, "user/-");
    let mut i: usize = 0;
    while i < categories.len()
        invariant
            i <= categories.len(),
            tail@ == text::without_prefixes(tag@, "user/-"@),
            forall|j: int|
                0 <= j < i ==> !carries(#[trigger] categories.deep_view()[j], tag@),
        decreases categories.len() - i,
    {
        let c = categories[i].as_str();
        assert(categories.deep_view()[i as int] == c@);
        if text::same(c, tag) || text::ends_with(c, tail) {
            return true;
        }
        i = i + 1;
    }
    false
}

/// `name` unless it is blank.
pub open spec fn named(name: Seq<char>) -> Option<Seq<char>> {
    if text::trimmed(name).len() > 0 {
        Some(text::trimmed(name))
    } else {
        None
    }
}

impl SubCatView {
    /// What the category calls itself: its label, or else the last part of an
    /// id of the form `user/-/label/NAME`.
    pub open spec fn own_name(self) -> Option<Seq<char>> {
        if self.label is Some && named(self.label->0) is Some {
            named(self.label->0)
        } else {
            match text::after_last(self.id, "/label/"@) {
                Some(rest) => named(rest),
                None => None,
            }
        }
    }

    /// The folder that the category stands for. The built-in label
    /// "Uncategorized", in any case of letters, stands for none.
    pub open spec fn folder(self) -> Option<Seq<char>> {
        match self.own_name() {
            Some(name) => if text::same_ignoring_case(name, "Uncategorized"@) {
                None
            } else {
                Some(name)
            },
            None => None,
        }
    }
}

/// The trimmed name, unless it is blank.
fn name_of(name: &str) -> (r: Option<String>)
    ensures
        r.deep_view() == named(name@),
{
    let t = text::trim(name);
    if t.is_empty() {
        None
    } else {
        Some(t.to_owned())
    }
}

impl SubCat {
    fn own_name(&self) -> (r: Option<String>)
        ensures
            r.deep_view() == self.deep_view().own_name(),
    {
        let from_label = match &self.label {
            Some(label) => name_of(label.as_str()),
            None => None,
        };
        if from_label.is_some() {
            return from_label;
        }
        match text::rest_after_last(self.id.as_str(), "/label/") {
            Some(rest) => name_of(rest),
            None => None,
        }
    }

    /// Human folder name for this category: the label, otherwise the name in a
    /// `user/-/label/NAME` id. `None` for an unnamed category and for the
    /// built-in "Uncategorized" label, which is no folder.
    pub fn folder_name(&self) -> (r: Option<String>)
        ensures
            r.deep_view() == self.deep_view().folder(),
    {
        match self.own_name() {
            Some(name) => {
                if text::eq_ignore_ascii_case(name.as_str(), "Uncategorized") {
                    None
                } else {
                    Some(name)
                }
            },
            None => None,
        }
    }
}

/// The label tag of a folder.
pub open spec fn tag_of_folder(name: Seq<char>) -> Seq<char> {
    "user/-/label/"@ + text::trimmed(name)
}

/// The label tag for a folder name.
pub fn label_tag(name: &str) -> (r: String)
    ensures
        r@ == tag_of_folder(name@),
{
    text::join("user/-/label/", text::trim(name))
}

/// The tag that files a subscription under the category: the id the server
/// reported where it is a label id, else the tag for the folder's name.
pub open spec fn tag_of_category(cat: SubCatView) -> Option<Seq<char>> {
    match cat.folder() {
        Some(name) => if cat.id.len() > 0 && text::occurs(cat.id, "/label/"@) {
            Some(cat.id)
        } else {
            Some(tag_of_folder(name))
        },
        None => None,
    }
}

/// The folder tag to remove from a subscription.
pub fn folder_tag(cat: &SubCat) -> (r: Option<String>)
    ensures
        r.deep_view() == tag_of_category(cat.deep_view()),
{
    match cat.folder_name() {
        Some(name) => {
            if !cat.id.as_str().is_empty() && text::contains(cat.id.as_str(), "/label/") {
                Some(cat.id.clone())
            } else {
                Some(label_tag(name.as_str()))
            }
        },
        None => None,
    }
}

/// The stream id of a subscription: the server's id, or one made of the feed's
/// address.
pub open spec fn stream_of(sub: SubView, fallback_url: Seq<char>) -> Seq<char> {
    if sub.id.len() == 0 {
        "feed/"@ + fallback_url
    } else {
        sub.id
    }
}

/// The stream id of a subscription.
pub fn subscription_stream(sub: &Sub, fallback_url: &str) -> (r: String)
    ensures
        r@ == stream_of(sub.deep_view(), fallback_url@),
{
    if sub.id.as_str().is_empty() {
        text::join("feed/", fallback_url)
    } else {
        sub.id.clone()
    }
}

proof fn lemma_state_tails()
    ensures
        text::without_prefixes(READ_TAG@, "user/-"@) == "/state/com.google/read"@,
        text::without_prefixes(STARRED_TAG@, "user/-"@) == "/state/com.google/starred"@,
{
    reveal_strlit("user/-");
    reveal_strlit("user/-/state/com.google/read");
    reveal_strlit("user/-/state/com.google/starred");
    reveal_strlit("/state/com.google/read");
    reveal_strlit("/state/com.google/starred");
    reveal_with_fuel(text::without_prefixes, 2);
    assert(READ_TAG@.skip(6) =~= "/state/com.google/read"@);
    assert(STARRED_TAG@.skip(6) =~= "/state/com.google/starred"@);
    assert("user/-"@[0] == 'u');
}

/// A state is recognised in the form that names a particular user, whoever that
/// is, and in the form that does not.
pub proof fn law_state_of_any_user(user: Seq<char>)
    ensures
        carries(READ_TAG@, READ_TAG@),
        carries(STARRED_TAG@, STARRED_TAG@),
        carries("user/"@ + user + "/state/com.google/read"@, READ_TAG@),
        carries("user/"@ + user + "/state/com.google/starred"@, STARRED_TAG@),
{
    lemma_state_tails();
    let read = "user/"@ + user + "/state/com.google/read"@;
    let starred = "user/"@ + user + "/state/com.google/starred"@;
    assert("/state/com.google/read"@ =~= read.subrange(
        read.len() - "/state/com.google/read"@.len(),
        read.len() as int,
    ));
    assert("/state/com.google/starred"@ =~= starred.subrange(
        starred.len() - "/state/com.google/starred"@.len(),
        starred.len() as int,
    ));
}

/// No category carries both states.
pub proof fn law_states_are_distinct(category: Seq<char>)
    ensures
        !(carries(category, READ_TAG@) && carries(category, STARRED_TAG@)),
{
    lemma_state_tails();
    reveal_strlit("user/-/state/com.google/read");
    reveal_strlit("user/-/state/com.google/starred");
    reveal_strlit("/state/com.google/read");
    reveal_strlit("/state/com.google/starred");
    let read = "/state/com.google/read"@;
    let starred = "/state/com.google/starred"@;
    let n = category.len() as int;
    if carries(category, READ_TAG@) && carries(category, STARRED_TAG@) {
        assert(category[n - 2] == 'a') by {
            if category != READ_TAG@ {
                assert(category[n - 2] == read[read.len() - 2]);
            }
        }
        assert(category[n - 2] == 'e') by {
            if category != STARRED_TAG@ {
                assert(category[n - 2] == starred[starred.len() - 2]);
            }
        }
    }
}

/// The label decides the folder's name where there is one that is not blank; the
/// id decides otherwise. A folder's name is never blank and has no white space at
/// either end, and it is never "Uncategorized".
pub proof fn law_folder_name(cat: SubCatView)
    ensures
        cat.label is Some && text::trimmed(cat.label->0).len() > 0 ==> cat.own_name() == Some(
            text::trimmed(cat.label->0),
        ),
        cat.folder() is Some ==> cat.folder() == cat.own_name(),
        cat.folder() matches Some(name) ==> name.len() > 0 && text::trimmed(name) == name
            && !text::same_ignoring_case(name, "Uncategorized"@),
{
    if cat.own_name() is Some {
        let source = if cat.label is Some && named(cat.label->0) is Some {
            cat.label->0
        } else {
            text::after_last(cat.id, "/label/"@)->0
        };
        assert(cat.own_name() == named(source));
        text::law_trimmed_idempotent(source);
    }
}

/// The label tag of a folder reads back as that folder: a category with this id
/// and no label stands for the folder of this name.
pub proof fn law_label_tag_reads_back(name: Seq<char>)
    requires
        text::trimmed(name).len() > 0,
        !text::same_ignoring_case(text::trimmed(name), "Uncategorized"@),
        !text::occurs("/"@ + text::trimmed(name), "/label/"@),
    ensures
        (SubCatView { id: tag_of_folder(name), label: None }).folder() == Some(
            text::trimmed(name),
        ),
{
    reveal_strlit("user/-/label/");
    reveal_strlit("/label/");
    reveal_strlit("/");
    let t = text::trimmed(name);
    let id = tag_of_folder(name);
    let part = "/label/"@;
    assert(id.subrange(6, 13) =~= part);
    assert(text::occurs_at(id, part, 6));
    assert forall|later: int| text::occurs_at(id, part, later) implies later <= 6 by {
        if later > 6 {
            // An occurrence that begins later overlaps at most the slash before
            // the name.
            assert(id[later] == part[0]) by {
                assert(id.subrange(later, later + 7)[0] == id[later]);
            }
            assert(later >= 12) by {
                if later < 12 {
                    assert(id[later] == "user/-/label/"@[later]);
                }
            }
            let tail = "/"@ + t;
            assert(id.skip(12) =~= tail);
            assert(tail.subrange(later - 12, later - 12 + 7) =~= id.subrange(later, later + 7));
            assert(text::occurs_at(tail, part, later - 12));
        }
    }
    assert(text::occurs_last_at(id, part, 6));
    let at = choose|at: int| text::occurs_last_at(id, part, at);
    assert(at == 6) by {
        assert(text::occurs_at(id, part, at));
    }
    assert(id.skip(13) =~= t);
    text::law_trimmed_idempotent(name);
}

/// The streams and states have the names that the interface gives them.
pub proof fn law_stream_names()
    ensures
        READ_TAG@ == "user/-/state/com.google/read"@,
        STARRED_TAG@ == "user/-/state/com.google/starred"@,
        READING_LIST@ == "user/-/state/com.google/reading-list"@,
{
}

/// The categories carry the read state exactly where one of them ends in the name
/// of that state, and likewise the starred state: no other category does.
pub proof fn law_states_recognised_exactly(categories: Seq<Seq<char>>)
    ensures
        tagged(categories, READ_TAG@) <==> exists|i: int|
            0 <= i < categories.len() && "/state/com.google/read"@.is_suffix_of(
                #[trigger] categories[i],
            ),
        tagged(categories, STARRED_TAG@) <==> exists|i: int|
            0 <= i < categories.len() && "/state/com.google/starred"@.is_suffix_of(
                #[trigger] categories[i],
            ),
{
    lemma_state_tails();
    reveal_strlit("user/-/state/com.google/read");
    reveal_strlit("user/-/state/com.google/starred");
    reveal_strlit("/state/com.google/read");
    reveal_strlit("/state/com.google/starred");
    assert(READ_TAG@.subrange(6, READ_TAG@.len() as int) =~= "/state/com.google/read"@);
    assert(STARRED_TAG@.subrange(6, STARRED_TAG@.len() as int) =~= "/state/com.google/starred"@);
}

/// Neither the reading list nor the mark that keeps an article unread makes an
/// article read or starred, whatever the user.
pub proof fn law_unread_categories(category: Seq<char>)
    requires
        "/state/com.google/reading-list"@.is_suffix_of(category)
            || "/state/com.google/kept-unread"@.is_suffix_of(category),
    ensures
        !carries(category, READ_TAG@),
        !carries(category, STARRED_TAG@),
{
    lemma_state_tails();
    reveal_strlit("user/-/state/com.google/read");
    reveal_strlit("user/-/state/com.google/starred");
    reveal_strlit("/state/com.google/read");
    reveal_strlit("/state/com.google/starred");
    reveal_strlit("/state/com.google/reading-list");
    reveal_strlit("/state/com.google/kept-unread");
    let n = category.len() as int;
    let list = "/state/com.google/reading-list"@;
    let kept = "/state/com.google/kept-unread"@;
    let read = "/state/com.google/read"@;
    let starred = "/state/com.google/starred"@;
    if list.is_suffix_of(category) {
        assert(category[n - 1] == list[list.len() - 1]);
    } else {
        assert(category[n - 1] == kept[kept.len() - 1]);
        assert(category[n - 5] == kept[kept.len() - 5]);
        assert(category[n - 6] == kept[kept.len() - 6]);
    }
    if carries(category, READ_TAG@) {
        assert(category[n - 1] == 'd' && category[n - 5] == '/') by {
            if category != READ_TAG@ {
                assert(category[n - 1] == read[read.len() - 1]);
                assert(category[n - 5] == read[read.len() - 5]);
            }
        }
    }
    if carries(category, STARRED_TAG@) {
        assert(category[n - 1] == 'd' && category[n - 5] == 'a') by {
            if category != STARRED_TAG@ {
                assert(category[n - 1] == starred[starred.len() - 1]);
                assert(category[n - 5] == starred[starred.len() - 5]);
            }
        }
    }
}

/// A tag is recognised in a category that is the tag, or that ends in what follows
/// `user/-` in it, and in no other.
pub proof fn law_tag_recognised_exactly(category: Seq<char>, tail: Seq<char>)
    requires
        !"user/-"@.is_prefix_of(tail),
    ensures
        carries(category, "user/-"@ + tail) <==> (exists|user: Seq<char>| #[trigger]
            (user + tail) == category),
{
    reveal_strlit("user/-");
    let prefix = "user/-"@;
    let tag = prefix + tail;
    reveal_with_fuel(text::without_prefixes, 2);
    assert(tag.take(6) =~= prefix);
    assert(tag.skip(6) =~= tail);
    if carries(category, tag) {
        if category == tag {
            assert(prefix + tail == category);
        } else {
            let user = category.take(category.len() - tail.len());
            assert(user + tail =~= category);
        }
    }
    if exists|user: Seq<char>| #[trigger] (user + tail) == category {
        let user = choose|user: Seq<char>| #[trigger] (user + tail) == category;
        assert(category.subrange(category.len() - tail.len(), category.len() as int) =~= tail);
    }
}

/// A label that is not blank names the folder, without surrounding white space;
/// "Uncategorized", in any case of letters, names none.
pub proof fn law_folder_of_label(id: Seq<char>, label: Seq<char>)
    requires
        text::trimmed(label).len() > 0,
    ensures
        (SubCatView { id, label: Some(label) }).folder() == if text::same_ignoring_case(
            text::trimmed(label),
            "Uncategorized"@,
        ) {
            None
        } else {
            Some(text::trimmed(label))
        },
{
}

/// Without a label, or with a blank one, the folder is named by what follows the
/// last `/label/` of the id.
pub proof fn law_folder_of_id(before: Seq<char>, name: Seq<char>, label: Option<Seq<char>>)
    requires
        label matches Some(l) ==> text::trimmed(l).len() == 0,
        forall|at: int|
            before.len() < at && at + 7 <= (before + "/label/"@ + name).len()
                ==> #[trigger] (before + "/label/"@ + name).subrange(at, at + 7) != "/label/"@,
    ensures
        (SubCatView { id: before + "/label/"@ + name, label }).folder() == if text::trimmed(
            name,
        ).len() == 0 || text::same_ignoring_case(text::trimmed(name), "Uncategorized"@) {
            None
        } else {
            Some(text::trimmed(name))
        },
{
    reveal_strlit("/label/");
    let part = "/label/"@;
    let id = before + part + name;
    let at = before.len() as int;
    assert(id.subrange(at, at + part.len()) =~= part);
    text::law_after_last(id, part);
    let rest = text::after_last(id, part)->0;
    let found = id.len() - rest.len() - part.len();
    assert(id.subrange(found, found + 7) =~= part);
    assert(found == at);
    assert(rest =~= id.skip(at + 7));
    assert(name =~= id.skip(at + 7));
}

/// An id without `/label/` names no folder.
pub proof fn law_no_folder_without_label(id: Seq<char>, label: Option<Seq<char>>)
    requires
        label matches Some(l) ==> text::trimmed(l).len() == 0,
        forall|at: int|
            0 <= at && at + 7 <= id.len() ==> #[trigger] id.subrange(at, at + 7) != "/label/"@,
    ensures
        (SubCatView { id, label }).folder() is None,
{
    reveal_strlit("/label/");
    text::law_after_last(id, "/label/"@);
}

/// A category that stands for a folder is taken off by its own id where that is a
/// label's, and else by the label of the folder's name; one that stands for none
/// is not taken off.
pub proof fn law_tag_of_category(cat: SubCatView)
    ensures
        cat.folder() is None <==> tag_of_category(cat) is None,
        cat.folder() matches Some(name) ==> tag_of_category(cat) == Some(
            if exists|at: int|
                0 <= at && at + 7 <= cat.id.len() && #[trigger] cat.id.subrange(at, at + 7)
                    == "/label/"@ {
                cat.id
            } else {
                "user/-/label/"@ + text::trimmed(name)
            },
        ),
{
    reveal_strlit("/label/");
    let part = "/label/"@;
    text::law_after_last(cat.id, part);
    if text::occurs(cat.id, part) {
        let at = choose|at: int| text::occurs_at(cat.id, part, at);
        assert(cat.id.subrange(at, at + 7) == part);
    } else {
        assert forall|at: int| 0 <= at && at + 7 <= cat.id.len() implies #[trigger] cat.id.subrange(
            at,
            at + 7,
        ) != part by {
            assert(!text::occurs_at(cat.id, part, at));
        }
    }
}

/// The label of a folder is its name, without surrounding white space, behind
/// `user/-/label/`.
pub proof fn law_label_of_folder(name: Seq<char>)
    ensures
        tag_of_folder(name) == "user/-/label/"@ + text::trimmed(name),
        tag_of_folder(text::trimmed(name)) == tag_of_folder(name),
{
    text::law_trimmed_idempotent(name);
}

/// A subscription is addressed by the server's id, and by `feed/` and its address
/// only where it has none.
pub proof fn law_stream_of_subscription(sub: SubView, url: Seq<char>)
    ensures
        sub.id.len() > 0 ==> stream_of(sub, url) == sub.id,
        sub.id.len() == 0 ==> stream_of(sub, url) == "feed/"@ + url,
{
}

}
