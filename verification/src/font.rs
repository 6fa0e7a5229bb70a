//! Reading a font table: weights, sizes and glyphs.

use vstd::prelude::*;
use crate::bitmap::BitMap;
use crate::table::{
    glyph_get, glyphs_empty, size_get, size_keys, size_order, sizes_empty, weight_entries,
    weight_get, weight_keys, weight_table, weight_values, weights_empty, ConstFontMap, SizeMap,
};
use crate::types::{FontSize, FontWeight};

verus! {

/// Some weight lists the size.
pub open spec fn listed(lists: Seq<Seq<FontSize>>, size: FontSize) -> bool {
    exists|w: int| 0 <= w < lists.len() && #[trigger] lists[w].contains(size)
}

/// Every weight lists the size.
pub open spec fn listed_everywhere(lists: Seq<Seq<FontSize>>, size: FontSize) -> bool {
    forall|w: int| 0 <= w < lists.len() ==> #[trigger] lists[w].contains(size)
}

/// The sizes stand in strictly ascending order, so none stands twice.
pub open spec fn ascending(sizes: Seq<FontSize>) -> bool {
    forall|i: int, j: int| 0 <= i < j < sizes.len() ==> sizes[i].precedes(sizes[j])
}

/// `report` is the size report of the per-weight size lists: the sizes that
/// some weight lists, each once, in ascending order, each with the flag
/// that says whether every weight lists it.
pub open spec fn is_size_report(lists: Seq<Seq<FontSize>>, report: Seq<(FontSize, bool)>) -> bool {
    &&& ascending(report.map_values(|e: (FontSize, bool)| e.0))
    &&& forall|size: FontSize|
        listed(lists, size) <==> exists|i: int|
            0 <= i < report.len() && (#[trigger] report[i]).0 == size
    &&& forall|i: int|
        0 <= i < report.len() ==> (#[trigger] report[i]).1 == listed_everywhere(
            lists,
            report[i].0,
        )
}

/// The size lists as sequences.
pub open spec fn lists_of(lists: Seq<Vec<FontSize>>) -> Seq<Seq<FontSize>> {
    lists.map_values(|l: Vec<FontSize>| l@)
}

/// Two ascending lists of the same sizes are the same list.
proof fn lemma_ascending_unique(a: Seq<FontSize>, b: Seq<FontSize>)
    requires
        ascending(a),
        ascending(b),
        forall|s: FontSize| a.contains(s) <==> b.contains(s),
    ensures
        a == b,
    decreases a.len(),
{
    if a.len() == 0 {
        if b.len() > 0 {
            assert(b.contains(b[0]));
        }
        assert(a =~= b);
    } else {
        assert(a.contains(a[0]));
        let j = choose|j: int| 0 <= j < b.len() && b[j] == a[0];
        assert(b.contains(b[0]));
        let i = choose|i: int| 0 <= i < a.len() && a[i] == b[0];
        if i > 0 && j > 0 {
            assert(a[0].precedes(a[i]));
            assert(b[0].precedes(b[j]));
        }
        assert(a[0] == b[0]);
        let ta = a.drop_first();
        let tb = b.drop_first();
        assert forall|s: FontSize| ta.contains(s) <==> tb.contains(s) by {
            if ta.contains(s) {
                let k = choose|k: int| 0 <= k < ta.len() && ta[k] == s;
                assert(a[k + 1] == s && a[0].precedes(a[k + 1]));
                assert(a.contains(s));
                let m = choose|m: int| 0 <= m < b.len() && b[m] == s;
                assert(m > 0);
                assert(tb[m - 1] == s);
            }
            if tb.contains(s) {
                let k = choose|k: int| 0 <= k < tb.len() && tb[k] == s;
                assert(b[k + 1] == s && b[0].precedes(b[k + 1]));
                assert(b.contains(s));
                let m = choose|m: int| 0 <= m < a.len() && a[m] == s;
                assert(m > 0);
                assert(ta[m - 1] == s);
            }
        }
        assert forall|x: int, y: int| 0 <= x < y < ta.len() implies ta[x].precedes(ta[y]) by {
            assert(a[x + 1].precedes(a[y + 1]));
        }
        assert forall|x: int, y: int| 0 <= x < y < tb.len() implies tb[x].precedes(tb[y]) by {
            assert(b[x + 1].precedes(b[y + 1]));
        }
        lemma_ascending_unique(ta, tb);
        assert(a =~= seq![a[0]] + ta);
        assert(b =~= seq![b[0]] + tb);
    }
}

/// A size report is fixed by the size lists: there is only one.
pub proof fn lemma_size_report_unique(
    lists: Seq<Seq<FontSize>>,
    a: Seq<(FontSize, bool)>,
    b: Seq<(FontSize, bool)>,
)
    requires
        is_size_report(lists, a),
        is_size_report(lists, b),
    ensures
        a == b,
{
    let sa = a.map_values(|e: (FontSize, bool)| e.0);
    let sb = b.map_values(|e: (FontSize, bool)| e.0);
    assert forall|s: FontSize| sa.contains(s) <==> sb.contains(s) by {
        if sa.contains(s) {
            let i = choose|i: int| 0 <= i < sa.len() && sa[i] == s;
            assert(a[i].0 == s);
            assert(listed(lists, s));
            let j = choose|j: int| 0 <= j < b.len() && (#[trigger] b[j]).0 == s;
            assert(sb[j] == s);
        }
        if sb.contains(s) {
            let i = choose|i: int| 0 <= i < sb.len() && sb[i] == s;
            assert(b[i].0 == s);
            assert(listed(lists, s));
            let j = choose|j: int| 0 <= j < a.len() && (#[trigger] a[j]).0 == s;
            assert(sa[j] == s);
        }
    }
    lemma_ascending_unique(sa, sb);
    assert forall|k: int| 0 <= k < a.len() implies a[k] == b[k] by {
        assert(sa[k] == a[k].0 && sb[k] == b[k].0);
    }
    assert(a.len() == sa.len() && b.len() == sb.len());
    assert(a =~= b);
}

/// Whether the list holds the size.
fn holds_size(list: &Vec<FontSize>, size: FontSize) -> (r: bool)
    ensures
        r == list@.contains(size),
{
    let mut i: usize = 0;
    while i < list.len()
        invariant
            i <= list@.len(),
            forall|j: int| 0 <= j < i ==> list@[j] != size,
        decreases list@.len() - i,
    {
        if list[i] == size {
            return true;
        }
        i = i + 1;
    }
    false
}

/// Puts the size at its place in an ascending list, unless it is there.
fn insert_size(sizes: &mut Vec<FontSize>, size: FontSize)
    requires
        ascending(old(sizes)@),
    ensures
        ascending(final(sizes)@),
        forall|s: FontSize| final(sizes)@.contains(s) <==> (old(sizes)@.contains(s) || s == size),
{
    let mut i: usize = 0;
    while i < sizes.len()
        invariant
            sizes@ == old(sizes)@,
            ascending(sizes@),
            i <= sizes@.len(),
            forall|j: int| 0 <= j < i ==> sizes@[j].precedes(size),
        ensures
            i <= sizes@.len(),
            i < sizes@.len() ==> !sizes@[i as int].precedes(size),
        decreases sizes@.len() - i,
    {
        if !sizes[i].is_before(&size) {
            break ;
        }
        i = i + 1;
    }
    if i < sizes.len() && sizes[i] == size {
        assert(sizes@.contains(size));
        return ;
    }
    let ghost before = sizes@;
    sizes.insert(i, size);
    proof {
        assert(before == old(sizes)@);
        assert(sizes@ == before.insert(i as int, size));
        assert forall|a: int, b: int| 0 <= a < b < sizes@.len() implies sizes@[a].precedes(
            sizes@[b],
        ) by {
            if b == i {
                assert(sizes@[a] == before[a]);
            } else if a == i {
                assert(sizes@[b] == before[b - 1]);
                assert(!before[i as int].precedes(size) && before[i as int] != size);
                if b - 1 > i {
                    assert(before[i as int].precedes(before[b - 1]));
                }
            } else {
                let a0 = if a < i { a } else { a - 1 };
                let b0 = if b < i { b } else { b - 1 };
                assert(sizes@[a] == before[a0] && sizes@[b] == before[b0]);
            }
        }
        assert forall|s: FontSize| #[trigger]
            sizes@.contains(s) <==> (before.contains(s) || s == size) by {
            if sizes@.contains(s) {
                let k = choose|k: int| 0 <= k < sizes@.len() && sizes@[k] == s;
                if k < i {
                    assert(before[k] == s);
                } else if k > i {
                    assert(before[k - 1] == s);
                }
            }
            if before.contains(s) {
                let k = choose|k: int| 0 <= k < before.len() && before[k] == s;
                if k < i {
                    assert(sizes@[k] == s);
                } else {
                    assert(sizes@[k + 1] == s);
                }
            }
            if s == size {
                assert(sizes@[i as int] == s);
            }
        }
    }
}

/// The size report of the sizes that each weight lists: every size that
/// some weight lists, once, in ascending order, with `true` where every
/// weight lists it and `false` where some weight lacks it.
///
/// A size never comes twice, with one flag or with two. Without weights the
/// report is empty.
pub fn reconcile_sizes(lists: &Vec<Vec<FontSize>>) -> (r: Vec<(FontSize, bool)>)
    ensures
        is_size_report(lists_of(lists@), r@),
{
    let ghost all = lists_of(lists@);
    let mut sizes: Vec<FontSize> = Vec::new();
    let mut w: usize = 0;
    while w < lists.len()
        invariant
            all == lists_of(lists@),
            w <= lists@.len(),
            ascending(sizes@),
            forall|s: FontSize| sizes@.contains(s) <==> listed(all.take(w as int), s),
        decreases lists@.len() - w,
    {
        let list: &Vec<FontSize> = &lists[w];
        let mut i: usize = 0;
        while i < list.len()
            invariant
                all == lists_of(lists@),
                w < lists@.len(),
                list@ == all[w as int],
                i <= list@.len(),
                ascending(sizes@),
                forall|s: FontSize|
                    sizes@.contains(s) <==> (listed(all.take(w as int), s) || list@.take(
                        i as int,
                    ).contains(s)),
            decreases list@.len() - i,
        {
            insert_size(&mut sizes, list[i]);
            proof {
                assert forall|s: FontSize| sizes@.contains(s) <==> (listed(all.take(w as int), s)
                    || list@.take(i + 1).contains(s)) by {
                    lemma_take_contains(list@, i as int, s);
                }
            }
            i = i + 1;
        }
        proof {
            assert(list@.take(list@.len() as int) =~= list@);
            assert forall|s: FontSize| sizes@.contains(s) <==> listed(all.take(w + 1), s) by {
                lemma_listed_take(all, w as int, s);
            }
        }
        w = w + 1;
    }
    assert(all.take(lists@.len() as int) =~= all);
    let mut report: Vec<(FontSize, bool)> = Vec::new();
    let mut k: usize = 0;
    while k < sizes.len()
        invariant
            all == lists_of(lists@),
            k <= sizes@.len(),
            report@.len() == k,
            forall|j: int| 0 <= j < k ==> (#[trigger] report@[j]).0 == sizes@[j],
            forall|j: int|
                0 <= j < k ==> (#[trigger] report@[j]).1 == listed_everywhere(all, sizes@[j]),
            ascending(sizes@),
            forall|s: FontSize| sizes@.contains(s) <==> listed(all, s),
        decreases sizes@.len() - k,
    {
        let size: FontSize = sizes[k];
        let mut everywhere: bool = true;
        let mut v: usize = 0;
        while v < lists.len()
            invariant
                all == lists_of(lists@),
                v <= lists@.len(),
                everywhere == listed_everywhere(all.take(v as int), size),
            decreases lists@.len() - v,
        {
            let here: bool = holds_size(&lists[v], size);
            proof {
                assert(all[v as int] == lists@[v as int]@);
                let upto = all.take(v as int);
                let next = all.take(v + 1);
                assert(next[v as int] == all[v as int]);
                assert forall|u: int| 0 <= u < v implies next[u] == upto[u] by {}
                if listed_everywhere(next, size) {
                    assert forall|u: int| 0 <= u < upto.len() implies #[trigger] upto[u].contains(
                        size,
                    ) by {
                        assert(next[u].contains(size));
                    }
                    assert(next[v as int].contains(size));
                }
            }
            everywhere = everywhere && here;
            v = v + 1;
        }
        assert(all.take(lists@.len() as int) =~= all);
        report.push((size, everywhere));
        k = k + 1;
    }
    proof {
        let keys = report@.map_values(|e: (FontSize, bool)| e.0);
        assert(keys =~= sizes@);
        assert forall|size: FontSize| listed(all, size) <==> exists|i: int|
            0 <= i < report@.len() && (#[trigger] report@[i]).0 == size by {
            if listed(all, size) {
                let i = choose|i: int| 0 <= i < sizes@.len() && sizes@[i] == size;
                assert(report@[i].0 == size);
            }
            if exists|i: int| 0 <= i < report@.len() && (#[trigger] report@[i]).0 == size {
                let i = choose|i: int| 0 <= i < report@.len() && (#[trigger] report@[i]).0 == size;
                assert(sizes@[i] == size);
            }
        }
    }
    report
}

/// One item more of a list holds what the items before hold, and that item.
proof fn lemma_take_contains(list: Seq<FontSize>, i: int, s: FontSize)
    requires
        0 <= i < list.len(),
    ensures
        list.take(i + 1).contains(s) <==> (list.take(i).contains(s) || s == list[i]),
{
    let upto = list.take(i);
    let next = list.take(i + 1);
    if next.contains(s) {
        let k = choose|k: int| 0 <= k < next.len() && next[k] == s;
        if k < i {
            assert(upto[k] == s);
        }
    }
    if upto.contains(s) {
        let k = choose|k: int| 0 <= k < upto.len() && upto[k] == s;
        assert(next[k] == s);
    }
    if s == list[i] {
        assert(next[i] == s);
    }
}

/// One list more lists what the lists before list, and what that list
/// holds.
proof fn lemma_listed_take(all: Seq<Seq<FontSize>>, w: int, s: FontSize)
    requires
        0 <= w < all.len(),
    ensures
        listed(all.take(w + 1), s) <==> (listed(all.take(w), s) || all[w].contains(s)),
{
    let upto = all.take(w);
    let next = all.take(w + 1);
    if listed(next, s) {
        let u = choose|u: int| 0 <= u < next.len() && #[trigger] next[u].contains(s);
        if u < w {
            assert(upto[u].contains(s));
        }
    }
    if listed(upto, s) {
        let u = choose|u: int| 0 <= u < upto.len() && #[trigger] upto[u].contains(s);
        assert(next[u].contains(s));
    }
    if all[w].contains(s) {
        assert(next[w].contains(s));
    }
}

/// What `get` finds, `weights` and `sizes` list: where the table has an
/// entry for a weight that lists a size, the weight is among the labels and
/// the size is in the size report.
pub proof fn lemma_found_is_listed(
    font: Font,
    weight: Seq<char>,
    size: FontSize,
    report: Seq<(FontSize, bool)>,
)
    requires
        font.lists(weight, size),
        is_size_report(font.size_lists(), report),
    ensures
        font.labels().contains(weight),
        exists|i: int| 0 <= i < report.len() && (#[trigger] report[i]).0 == size,
{
    let i = choose|i: int|
        0 <= i < font.labels().len() && font.labels()[i] == weight
            && #[trigger] font.size_lists()[i].contains(size);
    assert(font.labels()[i] == weight);
    assert(listed(font.size_lists(), size));
}

/// The sizes of a size map's keys.
pub open spec fn sizes_of(keys: Seq<(u32, u32)>) -> Seq<FontSize> {
    keys.map_values(|k: (u32, u32)| FontSize { width: k.0, height: k.1 })
}

/// A font: a view of one constant font table, which it borrows and does
/// not own.
pub struct Font {
    font: &'static ConstFontMap,
}

impl Font {
    /// The table that the font reads.
    pub closed spec fn table(&self) -> ConstFontMap {
        *self.font
    }

    /// The weight labels of the table, in the table's order.
    pub open spec fn labels(&self) -> Seq<Seq<char>> {
        weight_entries(self.table()).map_values(|e: (Seq<char>, Seq<(u32, u32)>)| e.0)
    }

    /// For each weight of the table, in the table's order, the sizes that
    /// the weight lists.
    pub open spec fn size_lists(&self) -> Seq<Seq<FontSize>> {
        weight_entries(self.table()).map_values(
            |e: (Seq<char>, Seq<(u32, u32)>)| sizes_of(e.1),
        )
    }

    /// The table has an entry for the weight, and this entry lists the size.
    pub open spec fn lists(&self, weight: Seq<char>, size: FontSize) -> bool {
        exists|i: int|
            0 <= i < self.labels().len() && self.labels()[i] == weight
                && #[trigger] self.size_lists()[i].contains(size)
    }

    /// The packed glyph that the table answers for a weight, a size and a
    /// character, if every one of the three lookups finds its key.
    pub open spec fn glyph(&self, weight: Seq<char>, size: FontSize, ch: char) -> Option<Seq<u8>> {
        let weights = weight_table(self.table());
        let key = (size.width, size.height);
        if weights.dom().contains(weight) && weights[weight].dom().contains(key)
            && weights[weight][key].dom().contains(ch) {
            Some(weights[weight][key][ch])
        } else {
            None
        }
    }

    /// Returns all font weights available
    pub fn weights(&self) -> (r: Vec<FontWeight>)
        ensures
            r@.len() == self.labels().len(),
            forall|i: int| 0 <= i < r@.len() ==> (#[trigger] r@[i])@ == self.labels()[i],
    {
        weight_keys(self.font)
    }

    /// Returns the font sizes and whether they are available for all weights.
    ///
    /// Each size that some weight has is reported exactly once, in ascending
    /// order: with `true` where every weight has it, with `false` where some
    /// weight lacks it. No size is reported with both flags.
    pub fn sizes(&self) -> (r: Vec<(FontSize, bool)>)
        ensures
            is_size_report(self.size_lists(), r@),
    {
        let maps: Vec<&'static SizeMap> = weight_values(self.font);
        let mut lists: Vec<Vec<FontSize>> = Vec::new();
        let mut i: usize = 0;
        while i < maps.len()
            invariant
                maps@.len() == weight_entries(self.table()).len(),
                forall|j: int|
                    0 <= j < maps@.len() ==> size_order(*#[trigger] maps@[j]) == weight_entries(
                        self.table(),
                    )[j].1,
                i <= maps@.len(),
                lists@.len() == i,
                forall|j: int| 0 <= j < i ==> (#[trigger] lists@[j])@ == self.size_lists()[j],
            decreases maps@.len() - i,
        {
            let keys: Vec<FontSize> = size_keys(maps[i]);
            proof {
                let order = size_order(*maps@[i as int]);
                assert(order == weight_entries(self.table())[i as int].1);
                assert forall|j: int| 0 <= j < keys@.len() implies keys@[j] == sizes_of(
                    order,
                )[j] by {
                    assert((keys@[j].width, keys@[j].height) == order[j]);
                }
                assert(keys@ =~= self.size_lists()[i as int]);
            }
            lists.push(keys);
            i = i + 1;
        }
        assert(lists_of(lists@) =~= self.size_lists());
        reconcile_sizes(&lists)
    }

    /// The glyph of a character at a weight and a size, or `None` where the
    /// table lacks the weight, the weight lacks the size, or the size lacks
    /// the character.
    pub fn get(&self, weight: FontWeight, size: FontSize, ch: char) -> (r: Option<BitMap>)
        ensures
            match r {
                Some(glyph) => self.glyph(weight@, size, ch) == Some(glyph.bytes())
                    && glyph.dims() == size,
                None => self.glyph(weight@, size, ch) is None,
            },
            r is Some ==> self.lists(weight@, size),
    {
        if weights_empty(self.font) {
            return None;
        }
        let sizes: &'static SizeMap = match weight_get(self.font, weight.inner) {
            Some(sizes) => sizes,
            None => {
                return None;
            },
        };
        if sizes_empty(sizes) {
            return None;
        }
        let glyphs = match size_get(sizes, size) {
            Some(glyphs) => glyphs,
            None => {
                return None;
            },
        };
        proof {
            let entries = weight_entries(self.table());
            let order = size_order(*sizes);
            let i = choose|i: int| 0 <= i < entries.len() && entries[i] == (weight@, order);
            let k = choose|k: int| 0 <= k < order.len() && order[k] == (size.width, size.height);
            assert(sizes_of(order)[k] == size);
            assert(self.size_lists()[i].contains(size));
        }
        if glyphs_empty(glyphs) {
            return None;
        }
        match glyph_get(glyphs, ch) {
            Some(bytes) => Some(BitMap::new(size, bytes)),
            None => None,
        }
    }
}

impl From<&'static ConstFontMap> for Font {
    fn from(value: &'static ConstFontMap) -> (r: Self)
        ensures
            r.table() == *value,
    {
        Self { font: value }
    }
}

impl vstd::std_specs::convert::FromSpecImpl<&'static ConstFontMap> for Font {
    open spec fn obeys_from_spec() -> bool {
        true
    }

    closed spec fn from_spec(value: &'static ConstFontMap) -> Self {
        Self { font: value }
    }
}

} // verus!
