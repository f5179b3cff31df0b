//! The peers on the network: who was heard of, where, and when.

use crate::keyed;
use crate::keyed::Keyed;
use crate::order;
use crate::order::Ranked;
use crate::text;
use vstd::prelude::*;

verus! {

/// For how many seconds a peer that is not heard of stays in the table.
pub const PEER_TIMEOUT: u64 = 15;

/// An internet address.
#[derive(Clone, Copy, Debug, PartialEq, Eq)]
pub enum IpAddress {
    V4([u8; 4]),
    V6([u8; 16]),
}

/// An address and a port.
#[derive(Clone, Copy, Debug, PartialEq, Eq)]
pub struct Endpoint {
    pub ip: IpAddress,
    pub port: u16,
}

/// A peer, as its last announcement described it.
#[derive(Debug)]
pub struct Peer {
    pub id: String,
    pub name: String,
    pub addr: Endpoint,
    pub last_seen: u64,
    pub pubkey: [u8; 32],
}

impl Clone for Peer {
    fn clone(&self) -> (copy: Self)
        ensures
            copy == *self,
    {
        Peer {
            id: self.id.clone(),
            name: self.name.clone(),
            addr: self.addr,
            last_seen: self.last_seen,
            pubkey: self.pubkey,
        }
    }
}

/// What `str::to_lowercase` makes of `s`.
pub uninterp spec fn lowercase_of(s: Seq<char>) -> Seq<char>;

/// `s` with the letters `A` to `Z` in lower case.
pub open spec fn ascii_lowered(s: Seq<char>) -> Seq<char> {
    Seq::new(
        s.len(),
        |i: int|
            if 'A' <= s[i] <= 'Z' {
                (s[i] as int + 32) as char
            } else {
                s[i]
            },
    )
}

/// Whether every character of `s` is ASCII.
pub open spec fn is_ascii(s: Seq<char>) -> bool {
    forall|i: int| 0 <= i < s.len() ==> #[trigger] s[i] <= '\u{7f}'
}

/// `str::to_lowercase`: a function of the text. Of an ASCII text it changes the
/// letters `A` to `Z` and nothing else.
#[verifier::external_body]
fn lowercase(s: &str) -> (lower: String)
    ensures
        lower@ == lowercase_of(s@),
        is_ascii(s@) ==> lower@ == ascii_lowered(s@),
{
    s.to_lowercase()
}

/// Peers are ranked by their names in lower case.
impl Ranked for Peer {
    open spec fn at_most(&self, other: &Self) -> bool {
        order::lex_at_most(
            order::char_rank(lowercase_of(self.name@)),
            order::char_rank(lowercase_of(other.name@)),
        )
    }

    proof fn total(a: Self, b: Self) {
        order::lemma_lex_total(
            order::char_rank(lowercase_of(a.name@)),
            order::char_rank(lowercase_of(b.name@)),
        );
    }

    proof fn transitive(a: Self, b: Self, c: Self) {
        order::lemma_lex_transitive(
            order::char_rank(lowercase_of(a.name@)),
            order::char_rank(lowercase_of(b.name@)),
            order::char_rank(lowercase_of(c.name@)),
        );
    }

    fn is_at_most(&self, other: &Self) -> (r: bool)
        ensures
            r == order::comes_first(
                order::scalars(lowercase_of(self.name@)),
                order::scalars(lowercase_of(other.name@)),
            ),
            is_ascii(self.name@) && is_ascii(other.name@) ==> r == order::comes_first(
                order::scalars(ascii_lowered(self.name@)),
                order::scalars(ascii_lowered(other.name@)),
            ),
    {
        proof {
            order::law_text_order(lowercase_of(self.name@), lowercase_of(other.name@));
        }
        order::text_at_most(
            lowercase(self.name.as_str()).as_str(),
            lowercase(other.name.as_str()).as_str(),
        )
    }
}

/// Whether no two of `s` have the same id.
pub open spec fn distinct_ids(s: Seq<Peer>) -> bool {
    forall|i: int, j: int|
        #![trigger s[i], s[j]]
        0 <= i < j < s.len() ==> s[i].id@ != s[j].id@
}

/// Whether `list` holds the peers of `known`, each of them once.
pub open spec fn lists(list: Seq<Peer>, known: Map<Seq<char>, Peer>) -> bool {
    &&& distinct_ids(list)
    &&& forall|i: int|
        0 <= i < list.len() ==> known.dom().contains((#[trigger] list[i]).id@)
            && known[list[i].id@] == list[i]
    &&& forall|id: Seq<char>| #[trigger] known.dom().contains(id) ==> list.contains(known[id])
}

/// Whether the names of `list` stand in the order of their lower-case forms, by the
/// scalar values of the characters; of an ASCII name the lower-case form is known.
pub open spec fn is_ordered_by_lower_case_name(list: Seq<Peer>) -> bool {
    &&& forall|i: int, j: int|
        #![trigger list[i], list[j]]
        0 <= i < j < list.len() ==> order::comes_first(
            order::scalars(lowercase_of(list[i].name@)),
            order::scalars(lowercase_of(list[j].name@)),
        )
    &&& forall|i: int|
        0 <= i < list.len() && is_ascii((#[trigger] list[i]).name@) ==> lowercase_of(list[i].name@)
            == ascii_lowered(list[i].name@)
}

/// The peers of `m` that were heard of at `cutoff` or later.
pub open spec fn heard_since(m: Map<Seq<char>, Peer>, cutoff: int) -> Map<Seq<char>, Peer> {
    Map::new(
        |id: Seq<char>| m.dom().contains(id) && m[id].last_seen >= cutoff,
        |id: Seq<char>| m[id],
    )
}

/// The time before which a peer is forgotten.
pub open spec fn cutoff_of(now: int) -> int {
    if now < PEER_TIMEOUT {
        0
    } else {
        now - PEER_TIMEOUT
    }
}

/// The peers that are known, by id.
#[derive(Debug)]
pub struct PeerTable {
    pub table: Keyed<Peer>,
}

impl View for PeerTable {
    type V = Map<Seq<char>, Peer>;

    open spec fn view(&self) -> Map<Seq<char>, Peer> {
        self.table@
    }
}

impl PeerTable {
    /// Every peer stands under its own id.
    pub open spec fn wf(&self) -> bool {
        &&& self.table.wf()
        &&& forall|id: Seq<char>| #[trigger] self@.dom().contains(id) ==> self@[id].id@ == id
    }

    /// A table without peers.
    pub fn new() -> (table: Self)
        ensures
            table.wf(),
            table@ == Map::<Seq<char>, Peer>::empty(),
    {
        PeerTable { table: Keyed::new() }
    }

    /// The peer with this id.
    pub fn get(&self, id: &str) -> (peer: Option<Peer>)
        requires
            self.wf(),
        ensures
            peer is Some <==> self@.dom().contains(id@),
            peer matches Some(p) ==> p == self@[id@],
    {
        match self.table.get(id) {
            None => None,
            Some(p) => Some(p.clone()),
        }
    }

    /// Records a peer, in place of what was known of its id.
    pub fn insert(&mut self, peer: Peer)
        requires
            old(self).wf(),
        ensures
            final(self).wf(),
            final(self)@ == old(self)@.insert(peer.id@, peer),
    {
        let id = peer.id.clone();
        self.table.insert(id.as_str(), peer);
    }

    /// Forgets the peers that were not heard of for `PEER_TIMEOUT` seconds.
    pub fn forget_stale(&mut self, now: u64)
        requires
            old(self).wf(),
        ensures
            final(self).wf(),
            final(self)@ == heard_since(old(self)@, cutoff_of(now as int)),
    {
        let cutoff: u64 = now.saturating_sub(PEER_TIMEOUT);
        let ghost known = self@;
        let ghost kept = heard_since(known, cutoff as int);
        let mut stale: Vec<String> = Vec::new();
        let mut i: usize = 0;
        while i < self.table.entries.len()
            invariant
                self.wf(),
                self@ == known,
                i <= self.table.entries@.len(),
                forall|j: int|
                    0 <= j < i && (#[trigger] self.table.entries@[j]).value.last_seen < cutoff
                        ==> text::texts(stale@).contains(self.table.entries@[j].key@),
                forall|j: int|
                    0 <= j < stale@.len() ==> known.dom().contains((#[trigger] stale@[j])@)
                        && known[stale@[j]@].last_seen < cutoff,
            decreases self.table.entries@.len() - i,
        {
            proof {
                keyed::lemma_by_key(self.table.entries@, i as int);
            }
            if self.table.entries[i].value.last_seen < cutoff {
                let ghost before = text::texts(stale@);
                let ghost key = self.table.entries@[i as int].key@;
                stale.push(self.table.entries[i].key.clone());
                proof {
                    let after = text::texts(stale@);
                    assert(after =~= before.push(key));
                    assert(after[before.len() as int] == key);
                    assert forall|k: Seq<char>| before.contains(k) implies after.contains(k) by {
                        let m = choose|m: int| 0 <= m < before.len() && before[m] == k;
                        assert(after[m] == k);
                    }
                }
            }
            i += 1;
        }
        let ghost all = text::texts(stale@);
        assert forall|id: Seq<char>|
            #[trigger] known.dom().contains(id) && known[id].last_seen < cutoff implies all.contains(
            id,
        ) by {
            let j = choose|j: int| #[trigger] keyed::key_at(self.table.entries@, j, id);
            keyed::lemma_by_key(self.table.entries@, j);
        }
        let mut k: usize = 0;
        while k < stale.len()
            invariant
                k <= stale@.len(),
                all == text::texts(stale@),
                kept == heard_since(known, cutoff as int),
                self.wf(),
                forall|id: Seq<char>| #[trigger]
                    self@.dom().contains(id) <==> known.dom().contains(id) && !all.take(
                        k as int,
                    ).contains(id),
                forall|id: Seq<char>| #[trigger] self@.dom().contains(id) ==> self@[id] == known[id],
            decreases stale@.len() - k,
        {
            let ghost before = self@;
            let _ = self.table.take(stale[k].as_str());
            proof {
                let gone = stale@[k as int]@;
                assert(all[k as int] == gone);
                assert(all.take(k + 1) =~= all.take(k as int).push(gone));
                assert forall|id: Seq<char>| #[trigger]
                    self@.dom().contains(id) <==> known.dom().contains(id) && !all.take(
                        k + 1,
                    ).contains(id) by {
                    assert(before.dom().contains(id) <==> known.dom().contains(id) && !all.take(
                        k as int,
                    ).contains(id));
                    let t = all.take(k as int);
                    assert(t.push(gone).contains(id) <==> t.contains(id) || id == gone) by {
                        if t.contains(id) {
                            let m = choose|m: int| 0 <= m < t.len() && t[m] == id;
                            assert(t.push(gone)[m] == id);
                        }
                        assert(t.push(gone)[t.len() as int] == gone);
                        if t.push(gone).contains(id) {
                            let m = choose|m: int|
                                0 <= m < t.push(gone).len() && t.push(gone)[m] == id;
                            if m < t.len() {
                                assert(t[m] == id);
                            }
                        }
                    }
                }
            }
            k += 1;
        }
        proof {
            assert(all.take(k as int) =~= all);
            assert forall|id: Seq<char>|
                #![trigger self@.dom().contains(id)]
                #![trigger kept.dom().contains(id)]
                #![trigger self@[id]]
                self@.dom().contains(id) == kept.dom().contains(id) && (kept.dom().contains(id)
                    ==> self@[id] == kept[id]) by {
                if all.contains(id) {
                    let m = choose|m: int| 0 <= m < all.len() && all[m] == id;
                    assert(stale@[m]@ == id);
                }
            }
            assert(self@ =~= kept);
        }
    }

    /// The peers in the order of their names.
    pub fn by_name(&self) -> (list: Vec<Peer>)
        requires
            self.wf(),
        ensures
            order::is_sorted(list@),
            lists(list@, self@),
            forall|i: int, j: int|
                #![trigger list@[i], list@[j]]
                0 <= i < j < list@.len() ==> order::comes_first(
                    order::scalars(lowercase_of(list@[i].name@)),
                    order::scalars(lowercase_of(list@[j].name@)),
                ),
            is_ordered_by_lower_case_name(list@),
    {
        let mut copy: Vec<Peer> = Vec::new();
        let mut i: usize = 0;
        while i < self.table.entries.len()
            invariant
                i <= self.table.entries@.len(),
                copy@.len() == i,
                forall|j: int| 0 <= j < i ==> #[trigger] copy@[j] == self.table.entries@[j].value,
                forall|j: int|
                    0 <= j < i && is_ascii((#[trigger] copy@[j]).name@) ==> lowercase_of(
                        copy@[j].name@,
                    ) == ascii_lowered(copy@[j].name@),
            decreases self.table.entries@.len() - i,
        {
            let peer = self.table.entries[i].value.clone();
            // This tells what the lower-case form of a plain name is.
            let _ = lowercase(peer.name.as_str());
            copy.push(peer);
            i += 1;
        }
        let ghost entries = self.table.entries@;
        proof {
            assert forall|j: int| 0 <= j < copy@.len() implies self@.dom().contains(
                (#[trigger] copy@[j]).id@,
            ) && self@[copy@[j].id@] == copy@[j] && copy@[j].id@ == entries[j].key@ by {
                keyed::lemma_by_key(entries, j);
            }
            assert forall|a: int, b: int|
                #![trigger copy@[a], copy@[b]]
                0 <= a < b < copy@.len() implies copy@[a].id@ != copy@[b].id@ by {
                assert(entries[a].key@ != entries[b].key@);
            }
            assert forall|id: Seq<char>| #[trigger] self@.dom().contains(id) implies copy@.contains(
                self@[id],
            ) by {
                let j = choose|j: int| #[trigger] keyed::key_at(entries, j, id);
                keyed::lemma_by_key(entries, j);
                assert(copy@[j] == self@[id]);
            }
        }
        let ghost unsorted = copy@;
        let list = order::sort_by_rank(copy);
        proof {
            lemma_reordered_lists(unsorted, list@, self@);
            assert forall|i: int, j: int|
                #![trigger list@[i], list@[j]]
                0 <= i < j < list@.len() implies order::comes_first(
                order::scalars(lowercase_of(list@[i].name@)),
                order::scalars(lowercase_of(list@[j].name@)),
            ) by {
                law_peers_rank_by_lower_case_name(list@[i], list@[j]);
            }
            unsorted.to_multiset_ensures();
            list@.to_multiset_ensures();
            assert forall|i: int|
                0 <= i < list@.len() && is_ascii((#[trigger] list@[i]).name@) implies lowercase_of(
                list@[i].name@,
            ) == ascii_lowered(list@[i].name@) by {
                assert(list@.contains(list@[i]));
                assert(list@.to_multiset().count(list@[i]) > 0);
                assert(unsorted.to_multiset().count(list@[i]) > 0);
                assert(unsorted.contains(list@[i]));
                let j = choose|j: int| 0 <= j < unsorted.len() && unsorted[j] == list@[i];
            }
        }
        list
    }
}

proof fn lemma_reordered_lists(s: Seq<Peer>, t: Seq<Peer>, known: Map<Seq<char>, Peer>)
    requires
        lists(s, known),
        s.to_multiset() == t.to_multiset(),
    ensures
        lists(t, known),
{
    s.to_multiset_ensures();
    t.to_multiset_ensures();
    assert forall|p: Peer| s.contains(p) <==> #[trigger] t.contains(p) by {
        assert(s.to_multiset().count(p) > 0 <==> s.contains(p));
        assert(t.to_multiset().count(p) > 0 <==> t.contains(p));
    }
    assert(s.no_duplicates()) by {
        assert forall|i: int, j: int|
            0 <= i < s.len() && 0 <= j < s.len() && i != j implies s[i] != s[j] by {
            if i < j {
                assert(s[i].id@ != s[j].id@);
            } else {
                assert(s[j].id@ != s[i].id@);
            }
        }
    }
    s.lemma_multiset_has_no_duplicates();
    t.lemma_multiset_has_no_duplicates_conv();
    assert forall|i: int| 0 <= i < t.len() implies known.dom().contains((#[trigger] t[i]).id@)
        && known[t[i].id@] == t[i] by {
        assert(t.contains(t[i]));
        let j = choose|j: int| 0 <= j < s.len() && s[j] == t[i];
        assert(known[s[j].id@] == s[j]);
    }
    assert forall|a: int, b: int|
        #![trigger t[a], t[b]]
        0 <= a < b < t.len() implies t[a].id@ != t[b].id@ by {
        assert(known[t[a].id@] == t[a] && known[t[b].id@] == t[b]);
    }
}

/// A peer stays known for `PEER_TIMEOUT` seconds after it was last heard of, and
/// no longer.
pub proof fn law_peer_lifetime(known: Map<Seq<char>, Peer>, id: Seq<char>, now: u64)
    requires
        known.dom().contains(id),
    ensures
        heard_since(known, cutoff_of(now as int)).dom().contains(id) <==> now
            <= known[id].last_seen + PEER_TIMEOUT,
        heard_since(known, cutoff_of(now as int)).dom().contains(id) ==> heard_since(
            known,
            cutoff_of(now as int),
        )[id] == known[id],
{
}

/// Peers rank by the lower-case forms of their names, character by character, and by
/// nothing else: names with the same lower-case form rank alike.
pub proof fn law_peers_rank_by_lower_case_name(a: Peer, b: Peer)
    ensures
        a.at_most(&b) <==> order::comes_first(
            order::scalars(lowercase_of(a.name@)),
            order::scalars(lowercase_of(b.name@)),
        ),
        lowercase_of(a.name@) == lowercase_of(b.name@) ==> a.at_most(&b) && b.at_most(&a),
{
    order::law_text_order(lowercase_of(a.name@), lowercase_of(b.name@));
    order::law_text_order(lowercase_of(b.name@), lowercase_of(a.name@));
}

/// A list in which the ASCII name `x` stands before the ASCII name `y` has no letter
/// by which `y` should stand first: at the first place where the two differ other
/// than in case, `x` has the smaller character.
pub proof fn law_case_does_not_order_names(list: Seq<Peer>, i: int, j: int, k: int)
    requires
        is_ordered_by_lower_case_name(list),
        0 <= i < j < list.len(),
        is_ascii(list[i].name@),
        is_ascii(list[j].name@),
        0 <= k < list[i].name@.len(),
        k < list[j].name@.len(),
        forall|m: int|
            0 <= m < k ==> #[trigger] ascii_lowered(list[i].name@)[m] == ascii_lowered(
                list[j].name@,
            )[m],
    ensures
        ascii_lowered(list[i].name@)[k] as int <= ascii_lowered(list[j].name@)[k] as int,
{
    let x = order::scalars(lowercase_of(list[i].name@));
    let y = order::scalars(lowercase_of(list[j].name@));
    assert(order::comes_first(x, y));
    assert forall|m: int| 0 <= m < k implies #[trigger] x[m] == y[m] by {
        assert(ascii_lowered(list[i].name@)[m] == ascii_lowered(list[j].name@)[m]);
    }
    assert(x[k] == ascii_lowered(list[i].name@)[k] as int);
    assert(y[k] == ascii_lowered(list[j].name@)[k] as int);
}

/// What is forgotten is forgotten for its age alone: a peer that was heard of in the
/// last fifteen seconds is kept as it was known, any other is gone, and none is new.
pub proof fn law_only_silent_peers_are_forgotten(
    known: Map<Seq<char>, Peer>,
    id: Seq<char>,
    now: u64,
)
    ensures
        ({
            let kept = heard_since(known, cutoff_of(now as int));
            &&& kept.dom().contains(id) <==> known.dom().contains(id) && known[id].last_seen + 15
                >= now
            &&& kept.dom().contains(id) ==> kept[id] == known[id]
        }),
{
}

/// A list of the known peers holds each of them once, under its own id, and nobody else.
pub proof fn law_list_holds_each_peer_once(
    list: Seq<Peer>,
    known: Map<Seq<char>, Peer>,
    id: Seq<char>,
    i: int,
    j: int,
)
    requires
        lists(list, known),
    ensures
        known.dom().contains(id) ==> exists|k: int| 0 <= k < list.len() && list[k] == known[id],
        0 <= i < list.len() ==> known.dom().contains(list[i].id@) && known[list[i].id@] == list[i],
        0 <= i < list.len() && 0 <= j < list.len() && i != j ==> list[i].id@ != list[j].id@,
{
    if known.dom().contains(id) {
        assert(list.contains(known[id]));
    }
    if 0 <= j < i < list.len() {
        assert(list[j].id@ != list[i].id@);
    }
}

} // verus!
