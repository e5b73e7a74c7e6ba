//! The supported servers and where each one mounts the Google Reader
//! interface.
use vstd::prelude::*;

use crate::text;

verus! {

/// Which Google Reader compatible server the user is connected to. The wire
/// protocol is the same; where its root sits under the server's address
/// differs.
#[derive(Clone, Copy, Debug, PartialEq, Eq, Structural)]
pub enum Provider {
    FreshRss,
    Miniflux,
}

impl Provider {
    /// The path from the server's address to the interface root.
    pub open spec fn suffix(self) -> Seq<char> {
        match self {
            Provider::FreshRss => "/api/greader.php"@,
            Provider::Miniflux => ""@,
        }
    }

    /// The name under which the choice is stored.
    pub open spec fn name(self) -> Seq<char> {
        match self {
            Provider::FreshRss => "freshrss"@,
            Provider::Miniflux => "miniflux"@,
        }
    }

    /// The provider that a stored setting stands for: Miniflux under its name,
    /// FreshRSS otherwise.
    pub open spec fn named(setting: Option<Seq<char>>) -> Provider {
        if setting is Some && text::trimmed(setting->0) == "miniflux"@ {
            Provider::Miniflux
        } else {
            Provider::FreshRss
        }
    }

    /// Path segment to append to the user's server address to reach the
    /// interface root.
    pub fn path_suffix(self) -> (r: &'static str)
        ensures
            r@ == self.suffix(),
    {
        match self {
            Provider::FreshRss => "/api/greader.php",
            Provider::Miniflux => "",
        }
    }

    /// Reads the stored setting. A missing or unknown one means FreshRSS.
    pub fn from_setting(s: Option<&str>) -> (r: Self)
        ensures
            r == Provider::named(s.deep_view()),
    {
        match s {
            Some(s) => {
                if text::same(text::trim(s), "miniflux") {
                    Provider::Miniflux
                } else {
                    Provider::FreshRss
                }
            },
            None => Provider::FreshRss,
        }
    }

    /// The name under which the choice is stored.
    pub fn as_str(self) -> (r: &'static str)
        ensures
            r@ == self.name(),
    {
        match self {
            Provider::FreshRss => "freshrss",
            Provider::Miniflux => "miniflux",
        }
    }
}

/// The interface root for a server address: the trimmed address, with the
/// provider's suffix appended unless it is there already.
pub open spec fn root_of(url: Seq<char>, provider: Provider) -> Seq<char> {
    let t = text::unslashed(text::trimmed(url));
    if provider.suffix().is_suffix_of(t) || text::occurs(t, provider.suffix() + "/"@) {
        t
    } else {
        t + provider.suffix()
    }
}

/// Normalises a server address that the user typed to the interface root for
/// the chosen provider. An address that names the root already is not
/// extended again.
pub fn greader_base(url: &str, provider: Provider) -> (r: String)
    ensures
        r@ == root_of(url@, provider),
{
    let t = text::trim_end_slashes(text::trim(url));
    let suffix = provider.path_suffix();
    let inner = text::join(suffix, "/");
    if text::ends_with(t, suffix) || text::contains(t, inner.as_str()) {
        t.to_owned()
    } else {
        text::join(t, suffix)
    }
}

/// The stored name of a provider stands for that provider.
pub proof fn law_setting_round_trip(provider: Provider)
    ensures
        Provider::named(Some(provider.name())) == provider,
{
    reveal_strlit("freshrss");
    reveal_strlit("miniflux");
    text::law_trimmed_fixed(provider.name());
    assert("freshrss"@[0] != "miniflux"@[0]);
}

/// Without a setting, or with one that is not Miniflux's name, the provider is
/// FreshRSS.
pub proof fn law_setting_default(setting: Option<Seq<char>>)
    ensures
        Provider::named(None) == Provider::FreshRss,
        setting is Some && text::trimmed(setting->0) != "miniflux"@ ==> Provider::named(setting)
            == Provider::FreshRss,
{
}

/// White space around the address makes no difference.
pub proof fn law_root_ignores_padding(url: Seq<char>, provider: Provider)
    ensures
        root_of(text::trimmed(url), provider) == root_of(url, provider),
{
    text::law_trimmed_idempotent(url);
}

/// The root of a root is that root: an address that names it already is not
/// extended again. This needs a root that does not end in white space, which
/// is what is left of an address with white space before its last slashes.
pub proof fn law_root_idempotent(url: Seq<char>, provider: Provider)
    requires
        root_of(url, provider).len() > 0 ==> !text::is_white(root_of(url, provider).last()),
    ensures
        root_of(root_of(url, provider), provider) == root_of(url, provider),
{
    reveal_strlit("/api/greader.php");
    reveal_strlit("");
    let slash = |c: char| c == '/';
    let whole = text::trimmed(url);
    let t = text::unslashed(whole);
    let r = root_of(url, provider);
    text::law_trimmed_ends(url);
    text::lemma_without_trailing(whole, slash);
    if t.len() > 0 {
        assert(t[0] == whole[0]);
    }
    if provider.suffix().len() > 0 && r != t {
        assert(provider.suffix()[0] == '/');
        assert(r[0] == if t.len() > 0 {
            t[0]
        } else {
            '/'
        });
        assert(r.last() == 'p');
        assert(r.subrange(r.len() - provider.suffix().len(), r.len() as int)
            =~= provider.suffix());
    }
    text::law_trimmed_fixed(r);
    assert(text::unslashed(r) == r) by {
        if r.len() > 0 {
            assert(!slash(r.last()));
        }
    }
}

/// The names and the mount points of the two providers, and how a stored name is
/// read: without surrounding white space, and as FreshRSS unless it is Miniflux's.
pub proof fn law_provider_names(setting: Option<Seq<char>>)
    ensures
        Provider::FreshRss.name() == "freshrss"@,
        Provider::Miniflux.name() == "miniflux"@,
        Provider::FreshRss.suffix() == "/api/greader.php"@,
        Provider::Miniflux.suffix().len() == 0,
        Provider::named(setting) is Miniflux <==> setting is Some && text::trimmed(setting->0)
            == "miniflux"@,
{
    reveal_strlit("");
}

/// Miniflux's interface is at the address itself, and FreshRSS's below it, unless
/// the address names it already; neither keeps surrounding white space or trailing
/// slashes.
pub proof fn law_root_of_provider(url: Seq<char>)
    ensures
        root_of(url, Provider::Miniflux) == text::unslashed(text::trimmed(url)),
        root_of(url, Provider::FreshRss) == ({
            let t = text::unslashed(text::trimmed(url));
            if "/api/greader.php"@.is_suffix_of(t) || (exists|at: int|
                0 <= at && at + 17 <= t.len() && #[trigger] t.subrange(at, at + 17)
                    == "/api/greader.php/"@) {
                t
            } else {
                t + "/api/greader.php"@
            }
        }),
{
    reveal_strlit("");
    reveal_strlit("/");
    reveal_strlit("/api/greader.php");
    reveal_strlit("/api/greader.php/");
    let t = text::unslashed(text::trimmed(url));
    let inner = "/api/greader.php"@ + "/"@;
    assert(inner =~= "/api/greader.php/"@);
    assert(t.subrange(t.len() as int, t.len() as int) =~= ""@);
    if text::occurs(t, inner) {
        let at = choose|at: int| text::occurs_at(t, inner, at);
        assert(t.subrange(at, at + 17) == inner);
    } else {
        assert forall|at: int| 0 <= at && at + 17 <= t.len() implies #[trigger] t.subrange(
            at,
            at + 17,
        ) != inner by {
            assert(!text::occurs_at(t, inner, at));
        }
    }
}

}
