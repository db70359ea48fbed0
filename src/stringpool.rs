//! A chunked text arena that hands out address-free tickets.
use vstd::prelude::*;
use vstd::string::*;

verus! {

/// Soft capacity of one chunk, in characters: a chunk that has reached it
/// takes no further text.
pub const POOL_STRING_SIZE: usize = 1024;

/// Where one stored text lies: its chunk, its first character there, and
/// how many characters it has.
#[derive(Clone, Copy, Debug, PartialEq, Eq, Hash, Default)]
pub struct StringTicket {
    start: usize,
    len: usize,
    i_chunk: usize,
}

/// The layout of a pool: the text of each chunk, and for each stored text
/// its ticket as (chunk, start, length).
pub struct PoolLayout {
    pub chunks: Seq<Seq<char>>,
    pub tickets: Seq<(nat, nat, nat)>,
}

/// The layout of a new pool: one empty chunk and no text.
pub open spec fn layout_new() -> PoolLayout {
    PoolLayout { chunks: seq![Seq::empty()], tickets: Seq::empty() }
}

/// Whether a text of `n` characters goes into a fresh chunk: the last chunk
/// is full, or its length would no longer fit a `usize`.
pub open spec fn rolls_over(m: PoolLayout, n: nat) -> bool {
    m.chunks.last().len() >= POOL_STRING_SIZE || m.chunks.last().len() + n > usize::MAX
}

/// The layout after adding `s`: appended to the last chunk, or to a new one
/// when that chunk is full. A text is never split.
pub open spec fn layout_add(m: PoolLayout, s: Seq<char>) -> PoolLayout {
    let last = m.chunks.len() - 1;
    if rolls_over(m, s.len()) {
        PoolLayout {
            chunks: m.chunks.push(s),
            tickets: m.tickets.push(((last + 1) as nat, 0nat, s.len())),
        }
    } else {
        PoolLayout {
            chunks: m.chunks.update(last, m.chunks.last() + s),
            tickets: m.tickets.push((last as nat, m.chunks.last().len(), s.len())),
        }
    }
}

/// The text that ticket `i` refers to.
pub open spec fn layout_get(m: PoolLayout, i: int) -> Seq<char> {
    let t = m.tickets[i];
    m.chunks[t.0 as int].subrange(t.1 as int, (t.1 + t.2) as int)
}

/// The layout of a new pool after adding each of `strs` in turn.
pub open spec fn layout_of(strs: Seq<Seq<char>>) -> PoolLayout
    decreases strs.len(),
{
    if strs.len() == 0 {
        layout_new()
    } else {
        layout_add(layout_of(strs.drop_last()), strs.last())
    }
}

/// Total number of characters in `strs`.
pub open spec fn total_len(strs: Seq<Seq<char>>) -> nat
    decreases strs.len(),
{
    if strs.len() == 0 {
        0
    } else {
        total_len(strs.drop_last()) + strs.last().len()
    }
}

/// Every ticket lies inside its chunk, and there is a chunk.
pub open spec fn layout_inv(m: PoolLayout) -> bool {
    &&& m.chunks.len() >= 1
    &&& forall|i: int|
        0 <= i < m.tickets.len() ==> {
            let t = #[trigger] m.tickets[i];
            &&& t.0 < m.chunks.len()
            &&& t.1 + t.2 <= m.chunks[t.0 as int].len()
        }
}

/// Adding a text keeps the layout well formed, keeps what every earlier
/// ticket reads, and the new ticket reads the new text.
pub proof fn lemma_add_keeps(m: PoolLayout, s: Seq<char>)
    requires
        layout_inv(m),
    ensures
        layout_inv(layout_add(m, s)),
        layout_add(m, s).tickets.len() == m.tickets.len() + 1,
        layout_add(m, s).chunks.len() >= m.chunks.len(),
        layout_get(layout_add(m, s), m.tickets.len() as int) == s,
        forall|i: int| 0 <= i < m.tickets.len() ==> layout_get(layout_add(m, s), i) == layout_get(m, i),
{
    let m2 = layout_add(m, s);
    let last = m.chunks.len() - 1;
    assert forall|i: int| 0 <= i < m.tickets.len() implies layout_get(m2, i) == layout_get(m, i) by {
        let t = m.tickets[i];
        assert(m2.tickets[i] == t);
        if !rolls_over(m, s.len()) && t.0 == last {
            assert(m2.chunks[last].subrange(t.1 as int, (t.1 + t.2) as int) =~= m.chunks[last].subrange(t.1 as int, (t.1 + t.2) as int));
        }
    }
    if !rolls_over(m, s.len()) {
        assert(m2.chunks[last].subrange(m.chunks.last().len() as int, (m.chunks.last().len() + s.len()) as int) =~= s);
    } else {
        assert(m2.chunks[last + 1].subrange(0, s.len() as int) =~= s);
    }
    assert forall|i: int| 0 <= i < m2.tickets.len() implies {
        let t = #[trigger] m2.tickets[i];
        &&& t.0 < m2.chunks.len()
        &&& t.1 + t.2 <= m2.chunks[t.0 as int].len()
    } by {
        if i < m.tickets.len() {
            assert(m2.tickets[i] == m.tickets[i]);
        }
    }
}

/// Strings added one by one to a new pool can each be read back exactly as
/// they were given, wherever the chunk boundaries fall.
pub proof fn lemma_pool_reads_back(strs: Seq<Seq<char>>)
    ensures
        layout_inv(layout_of(strs)),
        layout_of(strs).tickets.len() == strs.len(),
        forall|i: int| 0 <= i < strs.len() ==> layout_get(layout_of(strs), i) == strs[i],
        layout_of(strs).chunks.len() == 1 ==> layout_of(strs).chunks[0].len() == total_len(strs),
    decreases strs.len(),
{
    if strs.len() == 0 {
        return;
    }
    let prev = strs.drop_last();
    lemma_pool_reads_back(prev);
    let m = layout_of(prev);
    lemma_add_keeps(m, strs.last());
    assert forall|i: int| 0 <= i < strs.len() implies layout_get(layout_of(strs), i) == strs[i] by {
        if i < prev.len() {
            assert(prev[i] == strs[i]);
        }
    }
}

/// Once the strings before the last one hold at least a chunk's worth of
/// characters, the pool spans more than one chunk.
pub proof fn lemma_pool_rolls_over(strs: Seq<Seq<char>>)
    requires
        strs.len() > 0,
        total_len(strs.drop_last()) >= POOL_STRING_SIZE,
    ensures
        layout_of(strs).chunks.len() > 1,
{
    let prev = strs.drop_last();
    lemma_pool_reads_back(prev);
    lemma_add_keeps(layout_of(prev), strs.last());
}

/// A chunked text arena. Each added text is appended whole to the last
/// chunk, or to a new chunk once the last one is full, and is later read
/// back through its ticket.
#[derive(Debug)]
pub struct StringPool {
    v: Vec<StringTicket>,
    pool: Vec<String>,
    last_used: usize,
}

/// Relies on `String::with_capacity`: an empty string.
#[verifier::external_body]
fn new_chunk() -> (r: String)
    ensures
        r@ == Seq::<char>::empty(),
{
    String::with_capacity(POOL_STRING_SIZE)
}

/// Relies on `String::reserve`: room is made, the text is unchanged.
#[verifier::external_body]
fn reserve_chunk(s: &mut String, additional: usize)
    ensures
        final(s)@ == old(s)@,
{
    s.reserve(additional)
}

impl StringPool {
    pub closed spec fn view(&self) -> PoolLayout {
        PoolLayout {
            chunks: self.pool@.map_values(|c: String| c@),
            tickets: self.v@.map_values(|t: StringTicket| (t.i_chunk as nat, t.start as nat, t.len as nat)),
        }
    }

    pub closed spec fn wf(&self) -> bool {
        &&& self.pool@.len() >= 1
        &&& self.last_used == self.pool@.last()@.len()
        &&& forall|k: int| 0 <= k < self.pool@.len() ==> #[trigger] self.pool@[k]@.len() <= usize::MAX
        &&& layout_inv(self.view())
    }

    /// The texts stored, in the order they were added.
    pub open spec fn strings(&self) -> Seq<Seq<char>> {
        Seq::new(self.view().tickets.len(), |i: int| layout_get(self.view(), i))
    }

    /// A pool with one empty chunk and no text.
    pub fn new() -> (r: StringPool)
        ensures
            r.wf(),
            r.view() == layout_new(),
    {
        let mut pool: Vec<String> = Vec::new();
        pool.push(new_chunk());
        let r = StringPool { v: Vec::new(), pool, last_used: 0 };
        assert(r.view().chunks =~= layout_new().chunks);
        assert(r.view().tickets =~= layout_new().tickets);
        r
    }

    /// Index of the last chunk, the one that takes the next text.
    pub fn get_last_idx(&self) -> (r: usize)
        requires
            self.wf(),
        ensures
            r == self.view().chunks.len() - 1,
    {
        self.pool.len() - 1
    }

    /// The last chunk.
    pub fn borrow_last_chunk(&self) -> (r: &String)
        requires
            self.wf(),
        ensures
            r@ == self.view().chunks.last(),
    {
        let i = self.pool.len() - 1;
        &self.pool[i]
    }

    /// Number of texts stored.
    pub fn len(&self) -> (r: usize)
        ensures
            r == self.view().tickets.len(),
    {
        self.v.len()
    }

    /// Number of chunks.
    pub fn num_chunks(&self) -> (r: usize)
        ensures
            r == self.view().chunks.len(),
    {
        self.pool.len()
    }

    /// Stores `s` and gives it the next ticket.
    pub fn add_str(&mut self, s: &str)
        requires
            old(self).wf(),
        ensures
            final(self).wf(),
            final(self).view() == layout_add(old(self).view(), s@),
            final(self).strings() == old(self).strings().push(s@),
    {
        proof {
            lemma_add_keeps(self.view(), s@);
        }
        let ghost m = self.view();
        let n = s.unicode_len();
        if self.last_used >= POOL_STRING_SIZE || self.last_used > usize::MAX - n {
            self.pool.push(new_chunk());
            self.last_used = 0;
        }
        let i_chunk = self.pool.len() - 1;
        let start = self.last_used;
        let mut lc = self.pool.pop().unwrap();
        lc.append(s);
        self.pool.push(lc);
        self.last_used = start + n;
        self.v.push(StringTicket { start, len: n, i_chunk });
        proof {
            let m2 = layout_add(m, s@);
            assert(self.view().chunks =~= m2.chunks);
            assert(self.view().tickets =~= m2.tickets);
            assert(self.strings() =~= old(self).strings().push(s@));
        }
    }

    /// The text behind ticket `idx`.
    pub fn get_str(&self, idx: usize) -> (r: &str)
        requires
            self.wf(),
            idx < self.view().tickets.len(),
        ensures
            r@ == self.strings()[idx as int],
    {
        let t = self.v[idx];
        assert(self.view().tickets[idx as int] == (t.i_chunk as nat, t.start as nat, t.len as nat));
        assert(self.pool@[t.i_chunk as int]@.len() <= usize::MAX);
        self.pool[t.i_chunk].as_str().substring_char(t.start, t.start + t.len)
    }

    /// Makes room for `additional` more bytes in the last chunk.
    pub fn reserve(&mut self, additional: usize)
        requires
            old(self).wf(),
        ensures
            final(self).wf(),
            final(self).view() == old(self).view(),
    {
        let ghost m = self.view();
        let mut lc = self.pool.pop().unwrap();
        reserve_chunk(&mut lc, additional);
        self.pool.push(lc);
        assert(self.view().chunks =~= m.chunks);
    }
}

impl Clone for StringPool {
    /// An independent copy: same texts, same tickets, storage of its own.
    fn clone(&self) -> (r: StringPool)
        ensures
            self.wf() ==> r.wf(),
            r.view() == self.view(),
            r.strings() == self.strings(),
    {
        let mut pool: Vec<String> = Vec::new();
        let mut i: usize = 0;
        while i < self.pool.len()
            invariant
                0 <= i <= self.pool@.len(),
                pool@.len() == i,
                forall|k: int| 0 <= k < i ==> #[trigger] pool@[k]@ == self.pool@[k]@,
            decreases self.pool@.len() - i,
        {
            pool.push(self.pool[i].clone());
            i = i + 1;
        }
        let mut v: Vec<StringTicket> = Vec::new();
        let mut j: usize = 0;
        while j < self.v.len()
            invariant
                0 <= j <= self.v@.len(),
                v@ == self.v@.subrange(0, j as int),
            decreases self.v@.len() - j,
        {
            v.push(self.v[j]);
            j = j + 1;
            assert(v@ =~= self.v@.subrange(0, j as int));
        }
        assert(v@ =~= self.v@);
        let r = StringPool { v, pool, last_used: self.last_used };
        assert(r.view().chunks =~= self.view().chunks);
        assert(r.view().tickets =~= self.view().tickets);
        assert(r.strings() =~= self.strings());
        r
    }
}

} // verus!
