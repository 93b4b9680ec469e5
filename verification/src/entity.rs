//! Addressable endpoints of a lattice and the names derived from them.
use vstd::prelude::*;
use vstd::string::StringExecFns;
use crate::text::free_of;
use crate::text::joined;
use crate::text::last_segment;
use crate::text::lemma_cancel_head;
use crate::text::lemma_count_free;
use crate::text::lemma_free_differs_from_joined;
use crate::text::lemma_joined_unique;
use crate::text::lemma_last_segment_joined;
use crate::text::lemma_segments_joined;
use crate::text::segment_count;

verus! {

/// An actor or a capability provider, as the target or the origin of an invocation.
///
/// A provider is bound to a link and carries the link's name; an actor has an
/// empty link name.
#[derive(Clone, Debug, PartialEq, Eq)]
pub struct WasmCloudEntity {
    /// public identity of the actor or provider
    pub public_key: String,
    /// name of the link that a provider is bound to; empty for an actor
    pub link_name: String,
}

/// What an entity is, as text.
pub struct EntityView {
    pub public_key: Seq<char>,
    pub link_name: Seq<char>,
}

impl View for WasmCloudEntity {
    type V = EntityView;

    open spec fn view(&self) -> EntityView {
        EntityView { public_key: self.public_key@, link_name: self.link_name@ }
    }
}

impl EntityView {
    /// The entity can be addressed: it has a public identity, which holds
    /// neither of the separators `.` and `/`, and its link name holds no `.`.
    /// Such entities have topics and URLs of their own.
    pub open spec fn valid(self) -> bool {
        &&& self.public_key.len() > 0
        &&& free_of(self.public_key, '.')
        &&& free_of(self.public_key, '/')
        &&& free_of(self.link_name, '.')
    }

    /// The entity addresses a provider: it names a link.
    pub open spec fn is_provider(self) -> bool {
        self.link_name.len() > 0
    }

    /// The identity, followed for a provider by `sep` and the link name.
    pub open spec fn path(self, sep: char) -> Seq<char> {
        if self.is_provider() {
            self.public_key.push(sep) + self.link_name
        } else {
            self.public_key
        }
    }

    /// The canonical URL of the entity.
    pub open spec fn url(self) -> Seq<char> {
        "wasmbus://"@ + self.path('/')
    }

    /// The subject on which invocations of the entity travel in the lattice `prefix`.
    pub open spec fn topic(self, prefix: Seq<char>) -> Seq<char> {
        "wasmbus.rpc."@ + prefix.push('.') + self.path('.')
    }
}

/// Whether `c` occurs in `s`.
fn holds_char(s: &str, c: char) -> (found: bool)
    ensures
        found == !free_of(s@, c),
{
    let mut found = false;
    for x in it: s.chars()
        invariant
            it.seq() == s@,
            found == exists|j: int| 0 <= j < it.index() && s@[j] == c,
    {
        if x == c {
            found = true;
        }
    }
    found
}

/// Appends to `out` the identity of `entity` and, for a provider, `sep` and the link name.
pub(crate) fn push_path(out: &mut String, entity: &WasmCloudEntity, sep: &str, Ghost(c): Ghost<char>)
    requires
        sep@ == seq![c],
    ensures
        final(out)@ == old(out)@ + entity@.path(c),
{
    out.append(entity.public_key.as_str());
    if !entity.link_name.as_str().is_empty() {
        out.append(sep);
        out.append(entity.link_name.as_str());
        assert(final(out)@ =~= old(out)@ + entity@.path(c));
    }
}

impl WasmCloudEntity {
    /// An actor with the given public identity.
    pub fn new_actor(public_key: String) -> (entity: WasmCloudEntity)
        ensures
            entity@ == (EntityView { public_key: public_key@, link_name: Seq::empty() }),
    {
        WasmCloudEntity { public_key, link_name: String::new() }
    }

    /// A provider with the given public identity, bound to the link `link_name`.
    pub fn new_provider(public_key: String, link_name: String) -> (entity: WasmCloudEntity)
        ensures
            entity@ == (EntityView { public_key: public_key@, link_name: link_name@ }),
    {
        WasmCloudEntity { public_key, link_name }
    }

    /// Whether the entity can be addressed.
    pub fn is_valid(&self) -> (b: bool)
        ensures
            b == self@.valid(),
    {
        !self.public_key.as_str().is_empty() && !holds_char(self.public_key.as_str(), '.')
            && !holds_char(self.public_key.as_str(), '/') && !holds_char(
            self.link_name.as_str(),
            '.',
        )
    }

    /// Whether the entity names a link, and so addresses a provider.
    pub fn is_provider(&self) -> (b: bool)
        ensures
            b == self@.is_provider(),
    {
        !self.link_name.as_str().is_empty()
    }

    /// The canonical URL of the entity: the scheme, the public identity and,
    /// for a provider, the link name as a further path segment.
    pub fn url(&self) -> (url: String)
        ensures
            url@ == self@.url(),
    {
        let mut url = String::from_str("wasmbus://");
        proof {
            reveal_strlit("/");
            assert("/"@ =~= seq!['/']);
        }
        push_path(&mut url, self, "/", Ghost('/'));
        url
    }
}

/// The URL that names an operation of an entity: the entity's URL, a slash
/// and the operation name.
pub open spec fn operation_url_spec(target: EntityView, method: Seq<char>) -> Seq<char> {
    target.url().push('/') + method
}

/// The URL that names the operation `method` of `target`.
pub fn operation_url(target: &WasmCloudEntity, method: &str) -> (url: String)
    ensures
        url@ == operation_url_spec(target@, method@),
{
    let mut url = target.url();
    proof {
        reveal_strlit("/");
        assert("/"@ =~= seq!['/']);
    }
    url.append("/");
    url.append(method);
    assert(url@ =~= operation_url_spec(target@, method@));
    url
}

/// Two entities whose identities hold no `sep` have the same path only if
/// they are the same entity.
pub proof fn lemma_path_injective(e1: EntityView, e2: EntityView, sep: char)
    requires
        free_of(e1.public_key, sep),
        free_of(e2.public_key, sep),
        e1.path(sep) == e2.path(sep),
    ensures
        e1 == e2,
{
    if e1.is_provider() && e2.is_provider() {
        lemma_joined_unique(e1.public_key, e1.link_name, e2.public_key, e2.link_name, sep);
    } else if e1.is_provider() {
        lemma_free_differs_from_joined(e2.public_key, e1.public_key, e1.link_name, sep);
    } else if e2.is_provider() {
        lemma_free_differs_from_joined(e1.public_key, e2.public_key, e2.link_name, sep);
    } else {
        assert(e1.link_name =~= e2.link_name);
    }
}

/// Topics do not collide: in one lattice, two entities whose identities hold
/// no dot have the same topic only if identity and link name agree.
pub proof fn lemma_topic_injective(e1: EntityView, e2: EntityView, prefix: Seq<char>)
    requires
        free_of(e1.public_key, '.'),
        free_of(e2.public_key, '.'),
        e1.topic(prefix) == e2.topic(prefix),
    ensures
        e1 == e2,
{
    lemma_cancel_head("wasmbus.rpc."@ + prefix.push('.'), e1.path('.'), e2.path('.'));
    lemma_path_injective(e1, e2, '.');
}

/// URLs do not collide: two entities whose identities hold no slash have the
/// same URL only if identity and link name agree.
pub proof fn lemma_url_injective(e1: EntityView, e2: EntityView)
    requires
        free_of(e1.public_key, '/'),
        free_of(e2.public_key, '/'),
        e1.url() == e2.url(),
    ensures
        e1 == e2,
{
    lemma_cancel_head("wasmbus://"@, e1.path('/'), e2.path('/'));
    lemma_path_injective(e1, e2, '/');
}

/// Valid entities have addresses of their own: two of them share a topic in
/// a lattice, or a URL, only if they are the same entity.
pub proof fn lemma_valid_entities_do_not_collide(e1: EntityView, e2: EntityView, prefix: Seq<char>)
    requires
        e1.valid(),
        e2.valid(),
    ensures
        e1.topic(prefix) == e2.topic(prefix) ==> e1 == e2,
        e1.url() == e2.url() ==> e1 == e2,
{
    if e1.topic(prefix) == e2.topic(prefix) {
        lemma_topic_injective(e1, e2, prefix);
    }
    if e1.url() == e2.url() {
        lemma_url_injective(e1, e2);
    }
}

/// The topic of a provider ends with its link name: where the link name
/// holds no dot, it is the last of the topic's dot-separated segments.
pub proof fn lemma_provider_topic_ends_with_link_name(e: EntityView, prefix: Seq<char>)
    requires
        e.is_provider(),
        free_of(e.link_name, '.'),
    ensures
        last_segment(e.topic(prefix), '.') == e.link_name,
{
    let head = "wasmbus.rpc."@ + prefix.push('.') + e.public_key;
    assert(e.topic(prefix) =~= joined(head, '.', e.link_name));
    lemma_last_segment_joined(head, '.', e.link_name);
}

/// The topic of an actor has one segment fewer than the topic of a provider
/// with the same identity in the same lattice, where the provider's link name
/// holds no dot.
pub proof fn lemma_actor_topic_one_segment_fewer(
    public_key: Seq<char>,
    link_name: Seq<char>,
    prefix: Seq<char>,
)
    requires
        link_name.len() > 0,
        free_of(link_name, '.'),
    ensures
        segment_count(
            (EntityView { public_key, link_name: Seq::empty() }).topic(prefix),
            '.',
        ) + 1 == segment_count((EntityView { public_key, link_name }).topic(prefix), '.'),
{
    let actor = EntityView { public_key, link_name: Seq::empty() };
    let provider = EntityView { public_key, link_name };
    assert(provider.topic(prefix) =~= joined(actor.topic(prefix), '.', link_name));
    lemma_segments_joined(actor.topic(prefix), '.', link_name);
    lemma_count_free(link_name, '.');
}

} // verus!
