use vstd::prelude::*;
use crate::identity::Identity;

verus! {

/// The abstract value of one ranking entry: (score, post id, publisher bytes).
pub type EntryView = (u64, u64, Seq<u8>);

/// One entry of the score ranking: a post of a publishing actor and its score.
#[derive(Debug, Clone)]
pub struct PostScoreIndexItem {
    pub score: u64,
    pub post_id: u64,
    pub publisher_canister_id: Identity,
}

impl View for PostScoreIndexItem {
    type V = EntryView;

    open spec fn view(&self) -> EntryView {
        (self.score, self.post_id, self.publisher_canister_id@)
    }
}

impl PostScoreIndexItem {
    /// A second entry equal to this one.
    pub fn duplicate(&self) -> (r: PostScoreIndexItem)
        ensures
            r@ == self@,
    {
        PostScoreIndexItem {
            score: self.score,
            post_id: self.post_id,
            publisher_canister_id: self.publisher_canister_id.duplicate(),
        }
    }
}

/// The smaller of a count and a length.
pub open spec fn min_len(n: usize, len: nat) -> int {
    if n < len {
        n as int
    } else {
        len as int
    }
}

/// The abstract values of a sequence of entries.
pub open spec fn entries_view(s: Seq<PostScoreIndexItem>) -> Seq<EntryView> {
    s.map_values(|x: PostScoreIndexItem| x@)
}

/// The ranking order: higher score first, lower post id first among equal scores.
pub open spec fn ranks_before(a: EntryView, b: EntryView) -> bool {
    a.0 > b.0 || (a.0 == b.0 && a.1 < b.1)
}

/// Every entry ranks before every later one.
pub open spec fn ranked(s: Seq<EntryView>) -> bool {
    forall|i: int, j: int| 0 <= i < j < s.len() ==> ranks_before(s[i], s[j])
}

/// No two entries share a post id.
pub open spec fn distinct_posts(s: Seq<EntryView>) -> bool {
    forall|i: int, j: int| 0 <= i < s.len() && 0 <= j < s.len() && i != j ==> s[i].1 != s[j].1
}

/// The entries present after `item` replaces whatever stood for its post.
pub open spec fn replaced(present: Set<EntryView>, item: EntryView) -> Set<EntryView> {
    present.filter(|x: EntryView| x.1 != item.1).insert(item)
}

/// Inserting an entry of a new post at a position that respects the ranking
/// keeps the sequence ranked and adds exactly that entry.
proof fn lemma_insert_in_rank(s: Seq<EntryView>, pos: int, v: EntryView)
    requires
        ranked(s),
        distinct_posts(s),
        0 <= pos <= s.len(),
        forall|k: int| 0 <= k < pos ==> ranks_before(s[k], v),
        pos < s.len() ==> ranks_before(v, s[pos]),
        forall|k: int| 0 <= k < s.len() ==> s[k].1 != v.1,
    ensures
        ranked(s.insert(pos, v)),
        distinct_posts(s.insert(pos, v)),
        s.insert(pos, v).to_set() == s.to_set().insert(v),
{
    let t = s.insert(pos, v);
    assert forall|a: int, b: int| 0 <= a < b < t.len() implies ranks_before(t[a], t[b]) by {
        if a > pos {
            assert(t[a] == s[a - 1] && t[b] == s[b - 1]);
        } else if a == pos {
            assert(t[b] == s[b - 1]);
            assert(ranks_before(v, s[pos]));
            if b - 1 > pos {
                assert(ranks_before(s[pos], s[b - 1]));
            }
        } else if b > pos {
            assert(t[a] == s[a] && t[b] == s[b - 1]);
        } else if b == pos {
            assert(t[a] == s[a]);
        } else {
            assert(t[a] == s[a] && t[b] == s[b]);
        }
    }
    assert forall|a: int, b: int|
        0 <= a < t.len() && 0 <= b < t.len() && a != b implies t[a].1 != t[b].1 by {
        if a != pos && b != pos {
            let a2 = if a > pos { a - 1 } else { a };
            let b2 = if b > pos { b - 1 } else { b };
            assert(t[a] == s[a2] && t[b] == s[b2]);
        } else if a == pos {
            let b2 = if b > pos { b - 1 } else { b };
            assert(t[b] == s[b2]);
        } else {
            let a2 = if a > pos { a - 1 } else { a };
            assert(t[a] == s[a2]);
        }
    }
    assert forall|x: EntryView| t.contains(x) <==> (s.contains(x) || x == v) by {
        if t.contains(x) {
            let k = choose|k: int| 0 <= k < t.len() && t[k] == x;
            if k > pos {
                assert(s[k - 1] == x);
            } else if k < pos {
                assert(s[k] == x);
            }
        }
        if s.contains(x) {
            let k = choose|k: int| 0 <= k < s.len() && s[k] == x;
            if k >= pos {
                assert(t[k + 1] == x);
            } else {
                assert(t[k] == x);
            }
        }
        if x == v {
            assert(t[pos] == x);
        }
    }
    assert(t.to_set() =~= s.to_set().insert(v));
}

/// A collection of ranking entries kept in ranking order, at most one per post.
#[derive(Debug, Clone)]
pub struct PostScoreIndex {
    pub items: Vec<PostScoreIndexItem>,
}

impl View for PostScoreIndex {
    type V = Seq<EntryView>;

    open spec fn view(&self) -> Seq<EntryView> {
        self.items@.map_values(|x: PostScoreIndexItem| x@)
    }
}

impl PostScoreIndex {
    pub open spec fn wf(&self) -> bool {
        ranked(self@) && distinct_posts(self@)
    }

    /// The set of entries the index holds.
    pub open spec fn contents(&self) -> Set<EntryView> {
        self@.to_set()
    }

    pub fn new() -> (r: PostScoreIndex)
        ensures
            r.wf(),
            r@ == Seq::<EntryView>::empty(),
    {
        let r = PostScoreIndex { items: Vec::new() };
        assert(r@ =~= Seq::<EntryView>::empty());
        r
    }

    pub fn len(&self) -> (r: usize)
        ensures
            r == self@.len(),
    {
        self.items.len()
    }

    /// Inserts `item`, first removing the entry for the same post if there is one.
    pub fn replace(&mut self, item: PostScoreIndexItem)
        requires
            old(self).wf(),
            old(self)@.len() < usize::MAX,
        ensures
            final(self).wf(),
            final(self).contents() == replaced(old(self).contents(), item@),
    {
        let ghost before = self@;
        let mut i: usize = 0;
        while i < self.items.len()
            invariant
                self@ == before,
                0 <= i <= self@.len(),
                forall|k: int| 0 <= k < i ==> self@[k].1 != item.post_id,
            ensures
                i < self@.len() ==> self@[i as int].1 == item.post_id,
            decreases self@.len() - i,
        {
            if self.items[i].post_id == item.post_id {
                break;
            }
            i = i + 1;
        }
        let ghost found = i < self.items.len();
        let ghost at = i as int;
        if i < self.items.len() {
            self.items.remove(i);
            assert(self@ =~= before.remove(i as int));
        }
        let ghost without = self@;
        assert forall|a: int, b: int| 0 <= a < b < without.len() implies ranks_before(
            without[a],
            without[b],
        ) by {
            if found && a >= at {
                assert(without[a] == before[a + 1] && without[b] == before[b + 1]);
            } else if found && b >= at {
                assert(without[a] == before[a] && without[b] == before[b + 1]);
            } else {
                assert(without[a] == before[a] && without[b] == before[b]);
            }
        }
        assert forall|a: int, b: int|
            0 <= a < without.len() && 0 <= b < without.len() && a != b implies without[a].1
            != without[b].1 by {
            let a2 = if found && a >= at { a + 1 } else { a };
            let b2 = if found && b >= at { b + 1 } else { b };
            assert(without[a] == before[a2] && without[b] == before[b2]);
        }
        assert(forall|k: int| 0 <= k < without.len() ==> without[k].1 != item.post_id);
        assert forall|x: EntryView|
            without.contains(x) <==> (before.contains(x) && x.1 != item.post_id) by {
            if without.contains(x) {
                let k = choose|k: int| 0 <= k < without.len() && without[k] == x;
                if found && k >= at {
                    assert(before[k + 1] == x);
                } else {
                    assert(before[k] == x);
                }
            }
            if before.contains(x) && x.1 != item.post_id {
                let k = choose|k: int| 0 <= k < before.len() && before[k] == x;
                if found && k > at {
                    assert(without[k - 1] == x);
                } else {
                    assert(without[k] == x);
                }
            }
        }
        assert(without.to_set() =~= before.to_set().filter(|x: EntryView| x.1 != item.post_id));
        let mut pos: usize = 0;
        while pos < self.items.len()
            invariant
                self@ == without,
                0 <= pos <= self@.len(),
                forall|k: int| 0 <= k < without.len() ==> without[k].1 != item.post_id,
                forall|k: int| 0 <= k < pos ==> ranks_before(self@[k], item@),
            ensures
                pos < self@.len() ==> ranks_before(item@, self@[pos as int]),
            decreases self@.len() - pos,
        {
            let cur = &self.items[pos];
            if item.score > cur.score || (item.score == cur.score && item.post_id < cur.post_id) {
                break;
            }
            pos = pos + 1;
        }
        let ghost v = item@;
        proof {
            lemma_insert_in_rank(without, pos as int, v);
        }
        self.items.insert(pos, item);
        assert(self@ =~= without.insert(pos as int, v));
    }

    /// Keeps only the first `n` entries in ranking order.
    pub fn retain_top(&mut self, n: usize)
        requires
            old(self).wf(),
        ensures
            final(self).wf(),
            final(self)@ == old(self)@.take(min_len(n, old(self)@.len())),
    {
        let ghost before = self@;
        self.items.truncate(n);
        assert(self@ =~= before.take(min_len(n, before.len())));
    }

    /// Copies of the first `n` entries in ranking order (all of them if fewer).
    pub fn top(&self, n: usize) -> (r: Vec<PostScoreIndexItem>)
        ensures
            entries_view(r@) == self@.take(min_len(n, self@.len())),
    {
        let count: usize = if n < self.items.len() { n } else { self.items.len() };
        let mut r: Vec<PostScoreIndexItem> = Vec::new();
        let mut i: usize = 0;
        while i < count
            invariant
                count == min_len(n, self@.len()),
                0 <= i <= count,
                entries_view(r@) =~= self@.take(i as int),
            decreases count - i,
        {
            let ghost prev = r@;
            let e = self.items[i].duplicate();
            r.push(e);
            assert(entries_view(r@) =~= entries_view(prev).push(self@[i as int]));
            assert(self@.take(i + 1) =~= self@.take(i as int).push(self@[i as int]));
            i = i + 1;
        }
        r
    }
}

/// A ranked sequence is fixed by the set of entries it holds.
proof fn lemma_ranked_unique(s: Seq<EntryView>, t: Seq<EntryView>)
    requires
        ranked(s),
        ranked(t),
        s.to_set() == t.to_set(),
    ensures
        s == t,
    decreases s.len(),
{
    if s.len() == 0 {
        if t.len() > 0 {
            assert(t.to_set().contains(t[0]));
        }
        assert(s =~= t);
    } else {
        assert(s.to_set().contains(s[0]));
        assert(t.to_set().contains(t[0]));
        let i = choose|i: int| 0 <= i < s.len() && s[i] == t[0];
        let j = choose|j: int| 0 <= j < t.len() && t[j] == s[0];
        if i > 0 {
            assert(ranks_before(s[0], s[i]));
            if j > 0 {
                assert(ranks_before(t[0], t[j]));
            }
        }
        assert(s[0] == t[0]);
        let s1 = s.drop_first();
        let t1 = t.drop_first();
        assert forall|x: EntryView| s1.contains(x) <==> t1.contains(x) by {
            if s1.contains(x) {
                let k = choose|k: int| 0 <= k < s1.len() && s1[k] == x;
                assert(ranks_before(s[0], s[k + 1]));
                assert(s.to_set().contains(x));
                let m = choose|m: int| 0 <= m < t.len() && t[m] == x;
                assert(t1[m - 1] == x);
            }
            if t1.contains(x) {
                let k = choose|k: int| 0 <= k < t1.len() && t1[k] == x;
                assert(ranks_before(t[0], t[k + 1]));
                assert(t.to_set().contains(x));
                let m = choose|m: int| 0 <= m < s.len() && s[m] == x;
                assert(s1[m - 1] == x);
            }
        }
        assert(s1.to_set() =~= t1.to_set());
        lemma_ranked_unique(s1, t1);
        assert(s =~= t1.insert(0, t[0]));
        assert(t =~= t1.insert(0, t[0]));
    }
}

/// A ranked sequence holds no entry twice, so it has as many entries as its set.
proof fn lemma_ranked_set_len(s: Seq<EntryView>)
    requires
        ranked(s),
    ensures
        s.no_duplicates(),
        s.to_set().len() == s.len(),
{
    assert forall|i: int, j: int| 0 <= i < s.len() && 0 <= j < s.len() && i != j implies s[i]
        != s[j] by {
        if i < j {
            assert(ranks_before(s[i], s[j]));
        } else {
            assert(ranks_before(s[j], s[i]));
        }
    }
    s.unique_seq_to_set();
}

/// The first `n` entries of a ranked sequence rank before every entry left out.
proof fn lemma_prefix_outranks_rest(s: Seq<EntryView>, n: int)
    requires
        ranked(s),
        0 <= n <= s.len(),
    ensures
        s.take(n).to_set().subset_of(s.to_set()),
        forall|x: EntryView, y: EntryView|
            #![trigger s.take(n).to_set().contains(x), s.to_set().contains(y)]
            s.take(n).to_set().contains(x) && s.to_set().contains(y) && !s.take(
                n,
            ).to_set().contains(y) ==> ranks_before(x, y),
{
    let p = s.take(n);
    assert forall|x: EntryView| p.contains(x) implies s.contains(x) by {
        let i = choose|i: int| 0 <= i < p.len() && p[i] == x;
        assert(s[i] == x);
    }
    assert forall|x: EntryView, y: EntryView|
        p.to_set().contains(x) && s.to_set().contains(y) && !p.to_set().contains(y) implies ranks_before(
        x,
        y,
    ) by {
        let i = choose|i: int| 0 <= i < p.len() && p[i] == x;
        let j = choose|j: int| 0 <= j < s.len() && s[j] == y;
        if j < n {
            assert(p[j] == y);
        }
        assert(s[i] == x);
    }
}

/// Size past which the ranking is trimmed.
pub const SOFT_CAP: usize = 150;

/// Number of entries a trim keeps.
pub const HARD_CAP: usize = 100;

/// Number of top entries sent to the aggregator.
pub const TOP_POSTS_SENT: usize = 3;

/// The score ranking of a content-owning actor, in its legacy and its current
/// representation, which always hold the same entries.
#[derive(Debug, Clone)]
pub struct ScoreRankingIndex {
    pub posts_index_sorted_by_score: PostScoreIndex,
    pub posts_index_sorted_by_score_v1: PostScoreIndex,
}

impl ScoreRankingIndex {
    pub open spec fn wf(&self) -> bool {
        &&& self.posts_index_sorted_by_score.wf()
        &&& self.posts_index_sorted_by_score_v1.wf()
        &&& self.posts_index_sorted_by_score@ == self.posts_index_sorted_by_score_v1@
        &&& self.posts_index_sorted_by_score_v1@.len() <= SOFT_CAP
    }

    /// The entries of the ranking, in ranking order.
    pub open spec fn ranking(&self) -> Seq<EntryView> {
        self.posts_index_sorted_by_score_v1@
    }

    /// The set of entries of the ranking.
    pub open spec fn contents(&self) -> Set<EntryView> {
        self.ranking().to_set()
    }

    pub fn new() -> (r: ScoreRankingIndex)
        ensures
            r.wf(),
            r.ranking() == Seq::<EntryView>::empty(),
    {
        ScoreRankingIndex {
            posts_index_sorted_by_score: PostScoreIndex::new(),
            posts_index_sorted_by_score_v1: PostScoreIndex::new(),
        }
    }

    pub fn len(&self) -> (r: usize)
        ensures
            r == self.ranking().len(),
    {
        self.posts_index_sorted_by_score_v1.len()
    }
}

/// The (post id, score) pairs of a sequence of entries.
pub open spec fn post_score_pairs(s: Seq<EntryView>) -> Set<(u64, u64)> {
    s.map_values(|e: EntryView| (e.1, e.0)).to_set()
}

/// In a well-formed ranking the legacy and the current representation hold
/// the same (post id, score) pairs, and the same entries in the same order.
pub proof fn lemma_representations_agree(index: ScoreRankingIndex)
    requires
        index.wf(),
    ensures
        post_score_pairs(index.posts_index_sorted_by_score@) == post_score_pairs(
            index.posts_index_sorted_by_score_v1@,
        ),
        index.posts_index_sorted_by_score@ == index.ranking(),
{
}

/// Records `new_score` for post `post_id` of the actor `own_canister_id`,
/// replacing the post's earlier entry in both representations; when that
/// leaves more than `SOFT_CAP` entries, only the `HARD_CAP` best ranked stay.
pub fn update_post_score_index_on_post_score_recalculation(
    index: &mut ScoreRankingIndex,
    post_id: u64,
    new_score: u64,
    own_canister_id: &Identity,
)
    requires
        old(index).wf(),
    ensures
        final(index).wf(),
        ({
            let present = replaced(old(index).contents(), (new_score, post_id, own_canister_id@));
            &&& present.len() <= SOFT_CAP ==> final(index).contents() == present
            &&& present.len() > SOFT_CAP ==> {
                &&& final(index).ranking().len() == HARD_CAP
                &&& final(index).contents().subset_of(present)
                &&& forall|x: EntryView, y: EntryView|
                    #![trigger final(index).contents().contains(x), present.contains(y)]
                    final(index).contents().contains(x) && present.contains(y)
                        && !final(index).contents().contains(y) ==> ranks_before(x, y)
            }
        }),
{
    let item = PostScoreIndexItem {
        score: new_score,
        post_id,
        publisher_canister_id: own_canister_id.duplicate(),
    };
    let ghost present = replaced(index.contents(), item@);
    index.posts_index_sorted_by_score.replace(item.duplicate());
    index.posts_index_sorted_by_score_v1.replace(item);
    proof {
        lemma_ranked_unique(index.posts_index_sorted_by_score@, index.posts_index_sorted_by_score_v1@);
        lemma_ranked_set_len(index.posts_index_sorted_by_score_v1@);
    }
    if index.posts_index_sorted_by_score_v1.len() > SOFT_CAP {
        let ghost full = index.ranking();
        index.posts_index_sorted_by_score.retain_top(HARD_CAP);
        index.posts_index_sorted_by_score_v1.retain_top(HARD_CAP);
        proof {
            lemma_prefix_outranks_rest(full, HARD_CAP as int);
        }
    }
}

/// A one-way notification to another actor: the remote operation to invoke on
/// `recipient` and the entries handed to it.
#[derive(Debug, Clone)]
pub struct TopPostsNotification {
    pub recipient: Identity,
    pub method: &'static str,
    pub payload: Vec<PostScoreIndexItem>,
}

/// Name of the aggregator's operation that receives top entries.
pub open spec fn receive_top_posts_method() -> Seq<char> {
    "receive_top_posts_from_publishing_canister"@
}

/// The notification that sends the `TOP_POSTS_SENT` best ranked entries (all
/// of them if there are fewer) to the aggregator `post_cache_canister_id`.
pub fn send_top_post_scores_to_post_cache_canister(
    index: &ScoreRankingIndex,
    post_cache_canister_id: &Identity,
) -> (r: TopPostsNotification)
    requires
        index.wf(),
    ensures
        r.recipient@ == post_cache_canister_id@,
        r.method@ == receive_top_posts_method(),
        entries_view(r.payload@) == index.ranking().take(
            min_len(TOP_POSTS_SENT, index.ranking().len()),
        ),
        r.payload@.len() == min_len(TOP_POSTS_SENT, index.ranking().len()),
        ranked(entries_view(r.payload@)),
        forall|x: EntryView, y: EntryView|
            #![trigger entries_view(r.payload@).to_set().contains(x), index.contents().contains(y)]
            entries_view(r.payload@).to_set().contains(x) && index.contents().contains(y)
                && !entries_view(r.payload@).to_set().contains(y) ==> ranks_before(x, y),
{
    let payload = index.posts_index_sorted_by_score_v1.top(TOP_POSTS_SENT);
    let method = "receive_top_posts_from_publishing_canister";
    proof {
        reveal_strlit("receive_top_posts_from_publishing_canister");
        lemma_prefix_outranks_rest(index.ranking(), min_len(TOP_POSTS_SENT, index.ranking().len()));
        assert(entries_view(payload@).len() == payload@.len());
    }
    TopPostsNotification { recipient: post_cache_canister_id.duplicate(), method, payload }
}

} // verus!
