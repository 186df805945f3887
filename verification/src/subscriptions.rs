//! In-memory registry of who wants to be woken about which namespace.
//!
//! It lives for the process lifetime only: a restart clears it, and devices register again on
//! their next sync.

use crate::table::{lemma_remove_at, same_id, Id, Table};
use vstd::prelude::*;
use vstd::string::*;
use vstd::utf8::*;

verus! {

/// A 32-byte namespace id: the public key of a user's trail document.
pub type NamespaceId = Id;

/// Which push transport a token belongs to.
#[derive(Debug, Clone, Copy, PartialEq, Eq, Hash, Structural)]
pub enum Platform {
    /// Apple Push Notification service.
    Apns,
    /// Firebase Cloud Messaging.
    Fcm,
}

impl Platform {
    /// The name of the transport on the wire.
    pub open spec fn name(self) -> Seq<char> {
        match self {
            Platform::Apns => "apns"@,
            Platform::Fcm => "fcm"@,
        }
    }

    /// The name of the transport on the wire.
    pub fn as_str(&self) -> (r: &'static str)
        ensures
            r@ == self.name(),
    {
        match self {
            Platform::Apns => "apns",
            Platform::Fcm => "fcm",
        }
    }
}

/// A device's silent-push destination. The token is sensitive: never log it in full.
#[derive(Debug, Clone, PartialEq, Eq, Hash)]
pub struct PushSubscription {
    pub platform: Platform,
    pub token: String,
}

/// What a [`PushSubscription`] holds.
#[verifier::ext_equal]
pub struct SubscriptionView {
    pub platform: Platform,
    pub token: Seq<char>,
}

impl View for PushSubscription {
    type V = SubscriptionView;

    open spec fn view(&self) -> SubscriptionView {
        SubscriptionView { platform: self.platform, token: self.token@ }
    }
}

/// The part of `token` that may be shown: its last four bytes, where that is not all of it.
pub open spec fn shown_tail(token: Seq<char>) -> Seq<char> {
    let bytes = encode_utf8(token);
    if bytes.len() > 4 {
        decode_utf8(bytes.skip(bytes.len() - 4))
    } else {
        Seq::empty()
    }
}

impl PushSubscription {
    /// A log-safe rendering: the platform and a short suffix of the token, never the whole thing.
    pub fn redacted(&self) -> (r: String)
        requires
            encode_utf8(self.token@).len() > 4 ==> is_char_boundary(
                encode_utf8(self.token@),
                encode_utf8(self.token@).len() - 4,
            ),
        ensures
            r@ == self.platform.name() + ":…"@ + shown_tail(self.token@),
    {
        let mut out = self.platform.as_str().to_string();
        out.append(":…");
        let token = self.token.as_str();
        let n: usize = token.as_bytes().len();
        if n > 4 {
            let (_, tail) = token.split_at(n - 4);
            proof {
                let bytes = encode_utf8(token@);
                assert(bytes.subrange(n - 4, n as int) =~= bytes.skip(n - 4));
                encode_utf8_decode_utf8(tail@);
            }
            out.append(tail);
        }
        assert(out@ =~= self.platform.name() + ":…"@ + shown_tail(self.token@));
        out
    }

    /// How the subscription is named in logs: by its platform, with nothing of the token.
    pub fn log_label(&self) -> (r: String)
        ensures
            r@ == self.platform.name() + ":[REDACTED]"@,
    {
        let mut out = self.platform.as_str().to_string();
        out.append(":[REDACTED]");
        out
    }

    /// An independent copy.
    pub fn duplicate(&self) -> (r: Self)
        ensures
            r@ == self@,
    {
        PushSubscription { platform: self.platform, token: self.token.clone() }
    }

    /// Whether both name the same destination.
    pub fn same(&self, other: &Self) -> (r: bool)
        ensures
            r == (self@ == other@),
    {
        self.platform == other.platform && self.token == other.token
    }
}

/// Process-lifetime registry of granted namespaces and their wake targets.
#[derive(Debug)]
pub struct NamespaceRegistry {
    known: Table<()>,
    subscriptions: Vec<(NamespaceId, PushSubscription)>,
}

/// The contents of a [`NamespaceRegistry`].
#[verifier::ext_equal]
pub struct RegistryView {
    /// Namespaces that a device has granted.
    pub known: Set<NamespaceId>,
    /// Who is to be woken about which namespace.
    pub subscriptions: Set<(NamespaceId, SubscriptionView)>,
}

impl RegistryView {
    /// Nothing is granted.
    pub open spec fn empty() -> Self {
        RegistryView { known: Set::empty(), subscriptions: Set::empty() }
    }

    /// Only granted namespaces have wake targets.
    pub open spec fn consistent(self) -> bool {
        &&& self.known.finite()
        &&& self.subscriptions.finite()
        &&& forall|ns: NamespaceId, sub: SubscriptionView| #[trigger]
            self.subscriptions.contains((ns, sub)) ==> self.known.contains(ns)
    }

    /// Who is to be woken about `ns`.
    pub open spec fn targets(self, ns: NamespaceId) -> Set<SubscriptionView> {
        Set::new(|sub: SubscriptionView| self.subscriptions.contains((ns, sub)))
    }

    /// `ns` is granted, and `sub`, if any, is to be woken about it.
    pub open spec fn after_register(self, ns: NamespaceId, sub: Option<SubscriptionView>) -> Self {
        RegistryView {
            known: self.known.insert(ns),
            subscriptions: match sub {
                Some(s) => self.subscriptions.insert((ns, s)),
                None => self.subscriptions,
            },
        }
    }

    /// `sub` is no longer to be woken about `ns`.
    pub open spec fn after_unsubscribe(self, ns: NamespaceId, sub: SubscriptionView) -> Self {
        RegistryView { subscriptions: self.subscriptions.remove((ns, sub)), ..self }
    }
}

impl View for NamespaceRegistry {
    type V = RegistryView;

    closed spec fn view(&self) -> RegistryView {
        RegistryView { known: self.known@.dom(), subscriptions: self.pairs().to_set() }
    }
}

impl NamespaceRegistry {
    spec fn pairs(&self) -> Seq<(NamespaceId, SubscriptionView)> {
        self.subscriptions@.map_values(|p: (NamespaceId, PushSubscription)| (p.0, p.1@))
    }

    /// Nothing is recorded twice, and only granted namespaces have wake targets.
    pub closed spec fn wf(&self) -> bool {
        &&& self.known.wf()
        &&& self.pairs().no_duplicates()
        &&& self@.consistent()
    }

    /// A well-formed registry is consistent.
    pub proof fn lemma_consistent(&self)
        requires
            self.wf(),
        ensures
            self@.consistent(),
    {
    }

    /// A registry without grants.
    pub fn new() -> (r: Self)
        ensures
            r.wf(),
            r@ == RegistryView::empty(),
    {
        let r = NamespaceRegistry { known: Table::new(), subscriptions: Vec::new() };
        assert(r@ =~= RegistryView::empty());
        r
    }

    fn find(&self, ns: &NamespaceId, sub: &PushSubscription) -> (r: Option<usize>)
        ensures
            match r {
                Some(i) => i < self.pairs().len() && self.pairs()[i as int] == (*ns, sub@),
                None => !self.pairs().contains((*ns, sub@)),
            },
    {
        let mut i: usize = 0;
        while i < self.subscriptions.len()
            invariant
                i <= self.subscriptions.len(),
                forall|k: int| 0 <= k < i ==> #[trigger] self.pairs()[k] != (*ns, sub@),
            decreases self.subscriptions.len() - i,
        {
            let pair = &self.subscriptions[i];
            assert(self.pairs()[i as int] == (pair.0, pair.1@));
            if same_id(&pair.0, ns) && pair.1.same(sub) {
                return Some(i);
            }
            i = i + 1;
        }
        None
    }

    /// Records interest in `ns`, and a push subscription if there is one. Returns whether this is
    /// the first time that `ns` is seen, so that the caller imports it once.
    pub fn register(&mut self, ns: NamespaceId, sub: Option<PushSubscription>) -> (r: bool)
        requires
            old(self).wf(),
        ensures
            final(self).wf(),
            final(self)@ == old(self)@.after_register(
                ns,
                match sub {
                    Some(s) => Some(s@),
                    None => None,
                },
            ),
            r == !old(self)@.known.contains(ns),
    {
        let ghost before = *self;
        let is_new = !self.known.contains(&ns);
        if is_new {
            self.known.insert(ns, ());
        }
        assert(self.known@.dom() =~= before@.known.insert(ns));
        assert(self.pairs() == before.pairs());
        match sub {
            Some(s) => {
                let ghost pair = (ns, s@);
                if self.find(&ns, &s).is_none() {
                    self.subscriptions.push((ns, s));
                    proof {
                        assert(self.pairs() =~= before.pairs().push(pair));
                        before.pairs().lemma_push_to_set_commute(pair);
                    }
                } else {
                    assert(before@.subscriptions.insert(pair) =~= before@.subscriptions);
                }
                proof {
                    assert(self@ =~= before@.after_register(ns, Some(pair.1)));
                    lemma_register_consistent(before@, ns, Some(pair.1));
                }
            },
            None => {
                proof {
                    assert(self@ =~= before@.after_register(ns, None));
                    lemma_register_consistent(before@, ns, None);
                }
            },
        }
        is_new
    }

    /// Drops one device's push subscription from `ns`. Returns whether it was there. The namespace
    /// stays known: this stops the wake, not the replication.
    pub fn unsubscribe(&mut self, ns: &NamespaceId, sub: &PushSubscription) -> (r: bool)
        requires
            old(self).wf(),
        ensures
            final(self).wf(),
            final(self)@ == old(self)@.after_unsubscribe(*ns, sub@),
            r == old(self)@.subscriptions.contains((*ns, sub@)),
    {
        let ghost before = *self;
        match self.find(ns, sub) {
            Some(i) => {
                self.subscriptions.remove(i);
                proof {
                    assert(self.pairs() =~= before.pairs().remove(i as int));
                    lemma_remove_at(before.pairs(), i as int);
                    assert(before.pairs()[i as int] == (*ns, sub@));
                    assert(self@ =~= before@.after_unsubscribe(*ns, sub@));
                    lemma_unsubscribe_consistent(before@, *ns, sub@);
                }
                true
            },
            None => {
                assert(self@ =~= before@.after_unsubscribe(*ns, sub@));
                false
            },
        }
    }

    /// Who is to be woken about a namespace that just changed, each once.
    pub fn wake_targets(&self, ns: &NamespaceId) -> (r: Vec<PushSubscription>)
        requires
            self.wf(),
        ensures
            r@.map_values(|s: PushSubscription| s@).no_duplicates(),
            r@.map_values(|s: PushSubscription| s@).to_set() == self@.targets(*ns),
    {
        let mut out: Vec<PushSubscription> = Vec::new();
        let ghost views = |s: PushSubscription| s@;
        let mut i: usize = 0;
        while i < self.subscriptions.len()
            invariant
                self.wf(),
                i <= self.subscriptions.len(),
                views == (|s: PushSubscription| s@),
                out@.map_values(views).no_duplicates(),
                forall|sub: SubscriptionView| #[trigger]
                    out@.map_values(views).contains(sub) <==> self.pairs().take(
                        i as int,
                    ).contains((*ns, sub)),
            decreases self.subscriptions.len() - i,
        {
            let pair = &self.subscriptions[i];
            let ghost seen = self.pairs().take(i as int);
            let ghost before = out@.map_values(views);
            let ghost this = (pair.0, pair.1@);
            proof {
                assert(self.pairs()[i as int] == this);
                assert(self.pairs().take(i + 1) =~= seen.push(this));
                assert(!seen.contains(this));
            }
            if same_id(&pair.0, ns) {
                out.push(pair.1.duplicate());
                assert(out@.map_values(views) =~= before.push(this.1));
                assert(!before.contains(this.1));
            }
            assert forall|sub: SubscriptionView| #[trigger]
                out@.map_values(views).contains(sub) <==> self.pairs().take(i + 1).contains(
                    (*ns, sub),
                ) by {
                vstd::seq_lib::lemma_seq_contains_after_push(seen, this, (*ns, sub));
                vstd::seq_lib::lemma_seq_contains_after_push(before, this.1, sub);
                assert(before.contains(sub) <==> seen.contains((*ns, sub)));
            }
            i = i + 1;
        }
        assert(self.pairs().take(self.pairs().len() as int) =~= self.pairs());
        assert(out@.map_values(views).to_set() =~= self@.targets(*ns));
        out
    }

    /// Every granted namespace, each once.
    pub fn known_namespaces(&self) -> (r: Vec<NamespaceId>)
        requires
            self.wf(),
        ensures
            r@.no_duplicates(),
            r@.to_set() == self@.known,
    {
        self.known.keys()
    }

    /// Whether `ns` is granted.
    pub fn is_known(&self, ns: &NamespaceId) -> (r: bool)
        requires
            self.wf(),
        ensures
            r == self@.known.contains(*ns),
    {
        self.known.contains(ns)
    }
}

impl Default for NamespaceRegistry {
    fn default() -> (r: Self)
        ensures
            r.wf(),
            r@ == RegistryView::empty(),
    {
        Self::new()
    }
}

/// A registration keeps wake targets to granted namespaces.
pub proof fn lemma_register_consistent(
    v: RegistryView,
    ns: NamespaceId,
    sub: Option<SubscriptionView>,
)
    requires
        v.consistent(),
    ensures
        v.after_register(ns, sub).consistent(),
{
    let w = v.after_register(ns, sub);
    assert forall|n: NamespaceId, s: SubscriptionView| #[trigger]
        w.subscriptions.contains((n, s)) implies w.known.contains(n) by {
        if v.subscriptions.contains((n, s)) {
            assert(v.known.contains(n));
        }
    }
}

/// Dropping a subscription keeps wake targets to granted namespaces.
pub proof fn lemma_unsubscribe_consistent(v: RegistryView, ns: NamespaceId, sub: SubscriptionView)
    requires
        v.consistent(),
    ensures
        v.after_unsubscribe(ns, sub).consistent(),
{
    let w = v.after_unsubscribe(ns, sub);
    assert forall|n: NamespaceId, s: SubscriptionView| #[trigger]
        w.subscriptions.contains((n, s)) implies w.known.contains(n) by {
        assert(v.subscriptions.contains((n, s)));
    }
}

/// Law: the log-safe rendering shows at most four bytes of a token and never all of it.
pub proof fn law_token_is_never_shown_whole(token: Seq<char>)
    requires
        encode_utf8(token).len() > 4 ==> is_char_boundary(
            encode_utf8(token),
            encode_utf8(token).len() - 4,
        ),
    ensures
        encode_utf8(shown_tail(token)).len() <= 4,
        token.len() > 0 ==> shown_tail(token) != token,
{
    let bytes = encode_utf8(token);
    encode_utf8_valid_utf8(token);
    if bytes.len() > 4 {
        valid_utf8_split(bytes, bytes.len() - 4);
        assert(bytes.skip(bytes.len() - 4) =~= bytes.subrange(bytes.len() - 4, bytes.len() as int));
        decode_utf8_encode_utf8(bytes.skip(bytes.len() - 4));
    }
}

/// Law: registering the same device for the same namespace again changes nothing.
pub proof fn law_register_is_idempotent(
    v: RegistryView,
    ns: NamespaceId,
    sub: Option<SubscriptionView>,
)
    ensures
        v.after_register(ns, sub).after_register(ns, sub) == v.after_register(ns, sub),
{
    let w = v.after_register(ns, sub);
    assert(w.after_register(ns, sub) =~= w);
}

/// Law: a registration never takes a wake target away, and touches no other namespace.
pub proof fn law_register_adds_only(
    v: RegistryView,
    ns: NamespaceId,
    sub: Option<SubscriptionView>,
    other: NamespaceId,
)
    ensures
        v.targets(other).subset_of(v.after_register(ns, sub).targets(other)),
        other != ns ==> v.after_register(ns, sub).targets(other) == v.targets(other),
        v.known.subset_of(v.after_register(ns, sub).known),
{
    if other != ns {
        assert(v.after_register(ns, sub).targets(other) =~= v.targets(other));
    }
}

/// Law: unsubscribing twice is the same as once; it stops exactly that wake, and the namespace
/// stays granted.
pub proof fn law_unsubscribe_stops_one_wake(
    v: RegistryView,
    ns: NamespaceId,
    sub: SubscriptionView,
    other: NamespaceId,
)
    ensures
        v.after_unsubscribe(ns, sub).after_unsubscribe(ns, sub) == v.after_unsubscribe(ns, sub),
        v.after_unsubscribe(ns, sub).targets(ns) == v.targets(ns).remove(sub),
        other != ns ==> v.after_unsubscribe(ns, sub).targets(other) == v.targets(other),
        v.after_unsubscribe(ns, sub).known == v.known,
{
    let w = v.after_unsubscribe(ns, sub);
    assert(w.after_unsubscribe(ns, sub) =~= w);
    assert(w.targets(ns) =~= v.targets(ns).remove(sub));
    if other != ns {
        assert(w.targets(other) =~= v.targets(other));
    }
}

/// Law: unsubscribing undoes the wake that a registration arranged, and leaves the grant.
pub proof fn law_unsubscribe_undoes_subscription(
    v: RegistryView,
    ns: NamespaceId,
    sub: SubscriptionView,
)
    requires
        !v.subscriptions.contains((ns, sub)),
    ensures
        v.after_register(ns, Some(sub)).after_unsubscribe(ns, sub) == v.after_register(ns, None),
{
    assert(v.after_register(ns, Some(sub)).after_unsubscribe(ns, sub) =~= v.after_register(
        ns,
        None,
    ));
}

/// Law: a registration grants its namespace and no other, and adds its own wake target, if it has
/// one, and no other.
pub proof fn law_registration_adds_its_own(
    v: RegistryView,
    ns: NamespaceId,
    sub: Option<SubscriptionView>,
    other: NamespaceId,
    s: SubscriptionView,
)
    ensures
        v.after_register(ns, sub).known.contains(other) <==> v.known.contains(other) || other == ns,
        v.after_register(ns, sub).targets(other).contains(s) <==> v.targets(other).contains(s) || (
        other == ns && sub == Some(s)),
{
}

/// Law: an unsubscription takes one target from one namespace: the one with that platform and that
/// token, to the last character.
pub proof fn law_unsubscription_takes_its_own(
    v: RegistryView,
    ns: NamespaceId,
    sub: SubscriptionView,
    other: NamespaceId,
    s: SubscriptionView,
)
    ensures
        v.after_unsubscribe(ns, sub).known.contains(other) <==> v.known.contains(other),
        v.after_unsubscribe(ns, sub).targets(other).contains(s) <==> v.targets(other).contains(s)
            && !(other == ns && s.platform == sub.platform && s.token == sub.token),
{
}

/// Law: a namespace's wake targets are those that were recorded for it, each once.
pub proof fn law_targets_are_those_recorded(
    registry: NamespaceRegistry,
    ns: NamespaceId,
    r: Vec<PushSubscription>,
    s: SubscriptionView,
    i: int,
    j: int,
)
    requires
        registry.wf(),
        call_ensures(NamespaceRegistry::wake_targets, (&registry, &ns), r),
    ensures
        registry@.subscriptions.contains((ns, s)) <==> exists|k: int|
            0 <= k < r@.len() && (#[trigger] r@[k])@ == s,
        0 <= i < j < r@.len() ==> r@[i]@ != r@[j]@,
{
    let views = r@.map_values(|x: PushSubscription| x@);
    assert(views.to_set().contains(s) <==> registry@.targets(ns).contains(s));
    if views.contains(s) {
        let k = views.index_of(s);
        assert(r@[k]@ == s);
    }
    if exists|k: int| 0 <= k < r@.len() && (#[trigger] r@[k])@ == s {
        let k = choose|k: int| 0 <= k < r@.len() && (#[trigger] r@[k])@ == s;
        assert(views[k] == s);
        assert(views.contains(s));
    }
    if 0 <= i < j < r@.len() {
        assert(views[i] == r@[i]@ && views[j] == r@[j]@);
    }
}

/// Law: the log-safe rendering is the platform's wire name, a mark and the last four bytes of a token
/// that is longer than that; of a shorter one it shows nothing.
pub proof fn law_rendering_shows_the_last_four_bytes(sub: PushSubscription, r: String)
    requires
        encode_utf8(sub.token@).len() > 4 ==> is_char_boundary(
            encode_utf8(sub.token@),
            encode_utf8(sub.token@).len() - 4,
        ),
        call_ensures(PushSubscription::redacted, (&sub,), r),
    ensures
        ({
            let bytes = encode_utf8(sub.token@);
            let head = sub.platform.name() + ":…"@;
            &&& head.is_prefix_of(r@)
            &&& bytes.len() <= 4 ==> r@ == head
            &&& bytes.len() > 4 ==> encode_utf8(r@.skip(head.len() as int)) == bytes.skip(
                bytes.len() - 4,
            )
        }),
{
    let token = sub.token@;
    let bytes = encode_utf8(token);
    let head = sub.platform.name() + ":…"@;
    assert(r@ == head + shown_tail(token));
    assert(r@.take(head.len() as int) =~= head);
    assert(r@.skip(head.len() as int) =~= shown_tail(token));
    encode_utf8_valid_utf8(token);
    if bytes.len() > 4 {
        valid_utf8_split(bytes, bytes.len() - 4);
        assert(bytes.skip(bytes.len() - 4) =~= bytes.subrange(bytes.len() - 4, bytes.len() as int));
        decode_utf8_encode_utf8(bytes.skip(bytes.len() - 4));
    } else {
        assert(r@ =~= head);
    }
}

/// Law: the name in logs is the platform's, for every token.
pub proof fn law_log_label_is_the_platforms(sub: PushSubscription, r: String)
    requires
        call_ensures(PushSubscription::log_label, (&sub,), r),
    ensures
        sub.platform is Apns ==> r@ == "apns"@ + ":[REDACTED]"@,
        sub.platform is Fcm ==> r@ == "fcm"@ + ":[REDACTED]"@,
{
}

/// Law: registering grants one namespace, adds one wake target at most, and tells whether the
/// namespace was new.
pub proof fn law_registering_adds_its_own(
    registry: &mut NamespaceRegistry,
    ns: NamespaceId,
    sub: Option<PushSubscription>,
    r: bool,
    other: NamespaceId,
    s: SubscriptionView,
)
    requires
        call_ensures(NamespaceRegistry::register, (registry, ns, sub), r),
    ensures
        final(registry).wf(),
        r <==> !old(registry)@.known.contains(ns),
        final(registry)@.known.contains(other) <==> old(registry)@.known.contains(other) || other
            == ns,
        final(registry)@.subscriptions.contains((other, s)) <==> old(registry)@.subscriptions.contains((other, s)) || (other == ns && (sub matches Some(x) && x@ == s)),
{
}

/// Law: unsubscribing takes one wake target at most, and tells whether it was there.
pub proof fn law_unsubscribing_takes_its_own(
    registry: &mut NamespaceRegistry,
    ns: NamespaceId,
    sub: PushSubscription,
    r: bool,
    other: NamespaceId,
    s: SubscriptionView,
)
    requires
        call_ensures(NamespaceRegistry::unsubscribe, (registry, &ns, &sub), r),
    ensures
        final(registry).wf(),
        r <==> old(registry)@.subscriptions.contains((ns, sub@)),
        final(registry)@.known.contains(other) <==> old(registry)@.known.contains(other),
        final(registry)@.subscriptions.contains((other, s)) <==> old(registry)@.subscriptions.contains((other, s)) && !(other == ns && s.platform == sub.platform
            && s.token == sub.token@),
{
}

} // verus!
