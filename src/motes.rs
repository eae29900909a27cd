use vstd::prelude::*;
use crate::address::{Address, address_text};
use crate::outside::{push_char, attach, draw, drawing, emphasize_leaf, emphasize_root, leaf, nested, tree_rows};

verus! {

/// What a mote is, seen from outside: its address, its parent and whether it
/// changed since the last render.
pub struct MoteView {
    pub ip: Address,
    pub parent: Option<Address>,
    pub highlighted: bool,
}

/// One device of the mesh.
#[derive(Debug, PartialEq, Eq)]
pub struct Mote {
    id: usize,
    ip: Address,
    parent: Option<Address>,
    updated: bool,
}

impl View for Mote {
    type V = MoteView;

    closed spec fn view(&self) -> MoteView {
        MoteView { ip: self.ip, parent: self.parent, highlighted: self.updated }
    }
}

fn parent_is(parent: Option<Address>, p: Address) -> (r: bool)
    ensures
        r == (parent == Some(p)),
{
    match parent {
        Some(q) => q == p,
        None => false,
    }
}

impl Mote {
    /// A new mote with no parent, not highlighted.
    pub fn new(address: Address) -> (r: Mote)
        ensures
            r@ == (MoteView { ip: address, parent: None, highlighted: false }),
    {
        Mote { id: rand::random(), ip: address, parent: None, updated: false }
    }

    /// Records `address` as the parent. Where it differs from the current parent
    /// the mote is highlighted and `true` is returned; otherwise nothing changes.
    pub fn set_parent(&mut self, address: Address) -> (changed: bool)
        ensures
            changed == (old(self)@.parent != Some(address)),
            final(self)@ == (if changed {
                MoteView { parent: Some(address), highlighted: true, ..old(self)@ }
            } else {
                old(self)@
            }),
    {
        let changed = !parent_is(self.parent, address);
        if changed {
            self.parent = Some(address);
            self.updated = true;
        }
        changed
    }

    /// Highlights the mote, leaving its parent as it is.
    pub fn set_updated(&mut self)
        ensures
            final(self)@ == (MoteView { highlighted: true, ..old(self)@ }),
    {
        self.updated = true;
    }

    /// The mote's address.
    pub fn address(&self) -> (r: Address)
        ensures
            r == self@.ip,
    {
        self.ip
    }

    /// The mote's parent, if one was recorded.
    pub fn parent(&self) -> (r: Option<Address>)
        ensures
            r == self@.parent,
    {
        self.parent
    }

    /// Whether the mote changed since the last render.
    pub fn is_highlighted(&self) -> (r: bool)
        ensures
            r == self@.highlighted,
    {
        self.updated
    }
}

/// True where some mote of `m` has address `a`.
pub open spec fn knows(m: Seq<MoteView>, a: Address) -> bool {
    exists|i: int| 0 <= i < m.len() && m[i].ip == a
}

/// True where `i` is the first index of a mote with address `a`.
pub open spec fn is_first_match(m: Seq<MoteView>, a: Address, i: int) -> bool {
    0 <= i < m.len() && m[i].ip == a && forall|j: int| 0 <= j < i ==> m[j].ip != a
}

/// The index of the first mote with address `a`.
pub open spec fn first_match(m: Seq<MoteView>, a: Address) -> int {
    choose|i: int| is_first_match(m, a, i)
}

/// The motes with every highlight cleared.
pub open spec fn cleared(m: Seq<MoteView>) -> Seq<MoteView> {
    m.map_values(|v: MoteView| MoteView { highlighted: false, ..v })
}

/// The rows of the subtree headed by mote `i`: its own label at depth 0, then,
/// while `fuel` lasts, the subtrees of its children one level deeper.
pub open spec fn node_rows(m: Seq<MoteView>, labels: Seq<Seq<char>>, i: int, fuel: nat) -> Seq<
    (nat, Seq<char>),
>
    decreases fuel, 0int,
{
    seq![(0nat, labels[i])] + if fuel == 0 {
        Seq::empty()
    } else {
        child_rows(m, labels, m[i].ip, (fuel - 1) as nat, m.len() as int)
    }
}

/// The nested subtrees of the motes among the first `k` whose parent is `p`,
/// in registry order.
pub open spec fn child_rows(
    m: Seq<MoteView>,
    labels: Seq<Seq<char>>,
    p: Address,
    fuel: nat,
    k: int,
) -> Seq<(nat, Seq<char>)>
    decreases fuel, k,
{
    if k <= 0 {
        Seq::empty()
    } else if m[k - 1].parent == Some(p) {
        child_rows(m, labels, p, fuel, k - 1) + nested(node_rows(m, labels, k - 1, fuel))
    } else {
        child_rows(m, labels, p, fuel, k - 1)
    }
}

/// The drawn trees of the roots among the first `k` motes, in registry order,
/// each followed by a newline. A tree goes no deeper than there are motes.
pub open spec fn forest_upto(m: Seq<MoteView>, labels: Seq<Seq<char>>, k: int) -> Seq<char>
    decreases k,
{
    if k <= 0 {
        Seq::empty()
    } else if m[k - 1].parent is None {
        forest_upto(m, labels, k - 1) + drawing(node_rows(m, labels, k - 1, m.len() as nat))
            + seq!['\n']
    } else {
        forest_upto(m, labels, k - 1)
    }
}

/// The rendered forest of `m`, with `labels[i]` as the label of mote `i`.
pub open spec fn forest_text(m: Seq<MoteView>, labels: Seq<Seq<char>>) -> Seq<char> {
    forest_upto(m, labels, m.len() as int)
}

/// The plain labels of `m`: each address's text form.
pub open spec fn plain_labels(m: Seq<MoteView>) -> Seq<Seq<char>> {
    m.map_values(|v: MoteView| address_text(v.ip.segments@))
}

/// True where `labels` gives each mote that is not highlighted its plain label.
pub open spec fn fits(m: Seq<MoteView>, labels: Seq<Seq<char>>) -> bool {
    labels.len() == m.len() && forall|i: int|
        0 <= i < m.len() && !m[i].highlighted ==> labels[i] == address_text(m[i].ip.segments@)
}

/// True where `text` is a rendering of `m`: its forest with plain labels, but for
/// highlighted motes, whose labels carry an emphasis.
pub open spec fn rendering_of(m: Seq<MoteView>, text: Seq<char>) -> bool {
    exists|labels: Seq<Seq<char>>| fits(m, labels) && text == forest_text(m, labels)
}

/// The text of each string.
pub open spec fn texts(v: Seq<String>) -> Seq<Seq<char>> {
    v.map_values(|s: String| s@)
}

/// The mote that the first sighting of `a` adds: no parent, highlighted.
pub open spec fn sighted(a: Address) -> MoteView {
    MoteView { ip: a, parent: None, highlighted: true }
}

/// The registry after a sighting of `a`: a new mote appended and rendered where
/// `a` is new, else unchanged.
pub open spec fn after_observed(m: Seq<MoteView>, a: Address) -> Seq<MoteView> {
    if knows(m, a) {
        m
    } else {
        cleared(m.push(sighted(a)))
    }
}

/// Whether `a` claiming `p` as its parent changes the topology: `a` is known and
/// its recorded parent is another.
pub open spec fn advert_changes(m: Seq<MoteView>, a: Address, p: Address) -> bool {
    knows(m, a) && m[first_match(m, a)].parent != Some(p)
}

/// The registry with the new parent recorded and highlighted, before rendering.
pub open spec fn reparented(m: Seq<MoteView>, a: Address, p: Address) -> Seq<MoteView> {
    let i = first_match(m, a);
    m.update(i, MoteView { parent: Some(p), highlighted: true, ..m[i] })
}

/// The registry after `a` claims `p` as its parent: re-parented and rendered
/// where that is a change, else unchanged.
pub open spec fn after_advertised(m: Seq<MoteView>, a: Address, p: Address) -> Seq<MoteView> {
    if advert_changes(m, a, p) {
        cleared(reparented(m, a, p))
    } else {
        m
    }
}

/// The registry of motes, in the order in which they were added. Motes are never
/// removed; the forest is read from their parent addresses when it is rendered.
#[derive(Debug)]
pub struct Motes {
    pub motes: Vec<Mote>,
}

impl View for Motes {
    type V = Seq<MoteView>;

    open spec fn view(&self) -> Seq<MoteView> {
        self.motes@.map_values(|m: Mote| m@)
    }
}

impl Default for Motes {
    fn default() -> (r: Motes)
        ensures
            r@ == Seq::<MoteView>::empty(),
    {
        let r = Motes { motes: Vec::new() };
        assert(r@ =~= Seq::<MoteView>::empty());
        r
    }
}

impl Motes {
    /// An empty registry.
    pub fn new() -> (r: Motes)
        ensures
            r@ == Seq::<MoteView>::empty(),
    {
        let r = Motes { motes: Vec::new() };
        assert(r@ =~= Seq::<MoteView>::empty());
        r
    }

    /// The number of motes.
    pub fn len(&self) -> (r: usize)
        ensures
            r == self@.len(),
    {
        self.motes.len()
    }

    /// Whether a mote with exactly this address is present. Addresses match bit
    /// for bit, here and in `get_mut`: one device seen under two prefixes counts
    /// as two, so prefixes are to be made uniform before addresses come here.
    pub fn contains(&self, address: Address) -> (r: bool)
        ensures
            r == knows(self@, address),
    {
        let mut i: usize = 0;
        while i < self.motes.len()
            invariant
                i <= self.motes@.len(),
                forall|j: int| 0 <= j < i ==> self@[j].ip != address,
            decreases self.motes@.len() - i,
        {
            if self.motes[i].ip == address {
                assert(self@[i as int].ip == address);
                return true;
            }
            i = i + 1;
        }
        false
    }

    fn position(&self, address: Address) -> (r: usize)
        requires
            knows(self@, address),
        ensures
            is_first_match(self@, address, r as int),
    {
        let mut i: usize = 0;
        while i < self.motes.len()
            invariant
                i <= self.motes@.len(),
                knows(self@, address),
                forall|j: int| 0 <= j < i ==> self@[j].ip != address,
            decreases self.motes@.len() - i,
        {
            if self.motes[i].ip == address {
                return i;
            }
            i = i + 1;
        }
        proof {
            let j = choose|j: int| 0 <= j < self@.len() && self@[j].ip == address;
            assert(self@[j].ip != address);
        }
        0
    }

    /// The first mote with exactly this address, for change.
    pub fn get_mut(&mut self, address: Address) -> (r: &mut Mote)
        requires
            knows(old(self)@, address),
        ensures
            (*r)@ == old(self)@[first_match(old(self)@, address)],
            final(self)@ == old(self)@.update(first_match(old(self)@, address), (*final(r))@),
    {
        let i = self.position(address);
        proof {
            lemma_first_match(self@, address, i as int);
            lemma_first_match_exists(self@, address);
        }
        let r = &mut self.motes[i];
        r
    }

    fn add_to_tree(
        &self,
        tree: &mut termtree::Tree<String>,
        parent: Address,
        labels: &Vec<String>,
        fuel: usize,
    )
        requires
            labels@.len() == self.motes@.len(),
        ensures
            tree_rows(*final(tree)) == tree_rows(*old(tree)) + child_rows(
                self@,
                texts(labels@),
                parent,
                fuel as nat,
                self@.len() as int,
            ),
        decreases fuel,
    {
        let ghost labs = texts(labels@);
        let mut j: usize = 0;
        assert(tree_rows(*tree) =~= tree_rows(*old(tree)) + child_rows(
            self@,
            labs,
            parent,
            fuel as nat,
            0,
        ));
        while j < self.motes.len()
            invariant
                j <= self.motes@.len(),
                labels@.len() == self.motes@.len(),
                labs == texts(labels@),
                tree_rows(*tree) == tree_rows(*old(tree)) + child_rows(
                    self@,
                    labs,
                    parent,
                    fuel as nat,
                    j as int,
                ),
            decreases self.motes@.len() - j,
        {
            let mote = &self.motes[j];
            if parent_is(mote.parent, parent) {
                let mut sub = leaf(labels[j].clone());
                if fuel > 0 {
                    self.add_to_tree(&mut sub, mote.ip, labels, fuel - 1);
                } else {
                    assert(tree_rows(sub) =~= tree_rows(sub) + Seq::<(nat, Seq<char>)>::empty());
                }
                assert(tree_rows(sub) == node_rows(self@, labs, j as int, fuel as nat));
                attach(tree, sub);
                assert(tree_rows(*tree) =~= tree_rows(*old(tree)) + child_rows(
                    self@,
                    labs,
                    parent,
                    fuel as nat,
                    j + 1,
                ));
            }
            j = j + 1;
        }
    }

    /// Renders the forest with `labels[i]` as the label of mote `i`, then clears
    /// every highlight.
    pub fn render(&mut self, labels: &Vec<String>) -> (r: String)
        requires
            labels@.len() == old(self)@.len(),
        ensures
            r@ == forest_text(old(self)@, texts(labels@)),
            final(self)@ == cleared(old(self)@),
    {
        let ghost labs = texts(labels@);
        let n = self.motes.len();
        let mut out = String::new();
        let mut i: usize = 0;
        while i < n
            invariant
                i <= n == self.motes@.len(),
                labels@.len() == n,
                labs == texts(labels@),
                out@ == forest_upto(self@, labs, i as int),
            decreases n - i,
        {
            if self.motes[i].parent.is_none() {
                let mut tree = leaf(labels[i].clone());
                self.add_to_tree(&mut tree, self.motes[i].ip, labels, n - 1);
                assert(tree_rows(tree) == node_rows(self@, labs, i as int, n as nat));
                let text = draw(&tree);
                out.append(text.as_str());
                push_char(&mut out, '\n');
                assert(out@ =~= forest_upto(self@, labs, i + 1));
            }
            i = i + 1;
        }
        let ghost start = self@;
        let mut k: usize = 0;
        while k < n
            invariant
                k <= n == self.motes@.len(),
                start.len() == n,
                forall|j: int|
                    0 <= j < k ==> self@[j] == (MoteView { highlighted: false, ..start[j] }),
                forall|j: int| k <= j < n ==> self@[j] == start[j],
            decreases n - k,
        {
            let ghost before = self.motes@;
            let ghost prev = self@;
            self.motes[k].updated = false;
            assert(self.motes@ =~= before.update(
                k as int,
                Mote { updated: false, ..before[k as int] },
            ));
            assert(self@ =~= prev.update(
                k as int,
                MoteView { highlighted: false, ..start[k as int] },
            ));
            k = k + 1;
        }
        assert(self@ =~= cleared(start));
        out
    }

    /// Renders the forest, each highlighted mote's address emphasised, then clears
    /// every highlight.
    pub fn showtree(&mut self) -> (r: String)
        ensures
            rendering_of(old(self)@, r@),
            final(self)@ == cleared(old(self)@),
    {
        let mut labels: Vec<String> = Vec::new();
        let mut i: usize = 0;
        while i < self.motes.len()
            invariant
                i <= self.motes@.len(),
                labels@.len() == i,
                forall|j: int|
                    0 <= j < i && !self@[j].highlighted ==> labels@[j]@ == address_text(
                        self@[j].ip.segments@,
                    ),
            decreases self.motes@.len() - i,
        {
            let mote = &self.motes[i];
            let text = mote.ip.to_text();
            let label = if !mote.updated {
                text
            } else if mote.parent.is_none() {
                emphasize_root(&text)
            } else {
                emphasize_leaf(&text)
            };
            labels.push(label);
            i = i + 1;
        }
        let ghost m = self@;
        let r = self.render(&labels);
        assert(fits(m, texts(labels@)));
        r
    }

    /// A device with this address was seen. Where it is new, it is added,
    /// highlighted, and the forest is rendered: the text is returned. A known
    /// address changes nothing and gives `None`.
    pub fn device_observed(&mut self, address: Address) -> (r: Option<String>)
        ensures
            (r is Some) <==> !knows(old(self)@, address),
            final(self)@ == after_observed(old(self)@, address),
            knows(final(self)@, address),
            r matches Some(t) ==> rendering_of(old(self)@.push(sighted(address)), t@),
    {
        if self.contains(address) {
            return None;
        }
        let mut mote = Mote::new(address);
        mote.set_updated();
        self.add(mote);
        let r = self.showtree();
        assert(self@[old(self)@.len() as int].ip == address);
        Some(r)
    }

    /// The device `address` claims `parent` as its parent. Where the device is
    /// known and this is a new parent, it is recorded and highlighted, and the
    /// forest is rendered: the text is returned. Otherwise nothing changes and
    /// the result is `None`; an unknown device is ignored.
    pub fn parent_advertised(&mut self, address: Address, parent: Address) -> (r: Option<String>)
        ensures
            (r is Some) <==> advert_changes(old(self)@, address, parent),
            final(self)@ == after_advertised(old(self)@, address, parent),
            r matches Some(t) ==> rendering_of(reparented(old(self)@, address, parent), t@),
    {
        if !self.contains(address) {
            return None;
        }
        proof {
            lemma_first_match_exists(self@, address);
        }
        let changed = {
            let mote = self.get_mut(address);
            mote.set_parent(parent)
        };
        if changed {
            assert(self@ =~= reparented(old(self)@, address, parent));
            Some(self.showtree())
        } else {
            assert(self@ =~= old(self)@);
            None
        }
    }

    /// Appends a mote; the caller sees to it that its address is new.
    pub fn add(&mut self, mote: Mote)
        ensures
            final(self)@ == old(self)@.push(mote@),
    {
        self.motes.push(mote);
        assert(self@ =~= old(self)@.push(mote@));
    }
}

/// Where `a` is known, its first match is indeed a first match.
pub proof fn lemma_first_match_exists(m: Seq<MoteView>, a: Address)
    requires
        knows(m, a),
    ensures
        is_first_match(m, a, first_match(m, a)),
{
    let k = choose|k: int| 0 <= k < m.len() && m[k].ip == a;
    lemma_earliest(m, a, k);
}

proof fn lemma_earliest(m: Seq<MoteView>, a: Address, k: int)
    requires
        0 <= k < m.len(),
        m[k].ip == a,
    ensures
        is_first_match(m, a, first_match(m, a)),
    decreases k,
{
    if exists|j: int| 0 <= j < k && m[j].ip == a {
        let j = choose|j: int| 0 <= j < k && m[j].ip == a;
        lemma_earliest(m, a, j);
    } else {
        assert(is_first_match(m, a, k));
    }
}

/// The first match is the one index that is a first match.
pub proof fn lemma_first_match(m: Seq<MoteView>, a: Address, i: int)
    requires
        is_first_match(m, a, i),
    ensures
        first_match(m, a) == i,
{
    let k = first_match(m, a);
    assert(is_first_match(m, a, k));
    if k < i {
        assert(m[k].ip != a);
    } else if i < k {
        assert(m[i].ip != a);
    }
}

} // verus!
