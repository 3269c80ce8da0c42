//! Decoded values: the closed union of everything the object decoder can
//! produce for a dictionary entry, together with the mathematical view of
//! such values and helpers for string-keyed entry lists.

use vstd::prelude::*;
use crate::ui_tree_node::UiTreeNode;
use crate::ui_tree_node::NodeView;
use crate::ui_tree_node::view_of_node;

verus! {

/// A color with 8-bit-percent components, each scaled from the target's
/// floating-point channel value.
#[derive(Clone, Copy, Debug, PartialEq, Eq, Structural)]
pub struct ColorComponents {
    pub alpha: i32,
    pub red: i32,
    pub green: i32,
    pub blue: i32,
}

/// The fallback representation for a value no specialized decoder handled:
/// its address and, when resolvable, its runtime type name.
#[derive(Debug)]
pub struct DictEntryValueGenericRepresentation {
    pub address: u64,
    pub python_object_type_name: Option<String>,
}

/// An aggregate object resolved as a dictionary, keeping only the
/// allow-listed entries, each recursively decoded.
#[derive(Debug)]
pub struct Bunch {
    pub entries_of_interest: Vec<DictEntry>,
}

/// One decoded dictionary entry: its key string and decoded value.
#[derive(Debug)]
pub struct DictEntry {
    pub key: String,
    pub value: DecodedValue,
}

/// An integer decoded from the target: kept as 32-bit when the stored 64-bit
/// value round-trips losslessly through a 32-bit cast, else as 64-bit.
#[derive(Clone, Copy, Debug, PartialEq, Eq, Structural)]
pub enum IntWrapper {
    Int32(i32),
    Int64(i64),
}

impl IntWrapper {
    pub fn new_from_i32(value: i32) -> (r: Self)
        ensures
            r == IntWrapper::Int32(value),
    {
        IntWrapper::Int32(value)
    }

    pub fn new_from_i64(value: i64) -> (r: Self)
        ensures
            r == IntWrapper::Int64(value),
    {
        IntWrapper::Int64(value)
    }

    /// The held value, widened to 64 bits.
    pub fn get_i64(&self) -> (r: i64)
        ensures
            r as int == self.spec_i64(),
    {
        match *self {
            IntWrapper::Int32(value) => value as i64,
            IntWrapper::Int64(value) => value,
        }
    }

    /// The held value as an `i32`, or `None` when it does not fit.
    pub fn get_i32(&self) -> (r: Option<i32>)
        ensures
            i32::MIN <= self.spec_i64() <= i32::MAX ==> r == Some((self.spec_i64()) as i32),
            !(i32::MIN <= self.spec_i64() <= i32::MAX) ==> r is None,
    {
        match *self {
            IntWrapper::Int32(value) => Some(value),
            IntWrapper::Int64(value) => {
                if i32::MIN as i64 <= value && value <= i32::MAX as i64 {
                    Some(value as i32)
                } else {
                    None
                }
            },
        }
    }

    /// The mathematical value held.
    pub open spec fn spec_i64(self) -> int {
        match self {
            IntWrapper::Int32(value) => value as int,
            IntWrapper::Int64(value) => value as int,
        }
    }
}

/// Everything the object decoder can produce: a closed, type-checked union in
/// place of open type erasure.
#[derive(Debug)]
pub enum DecodedValue {
    /// Decoded `str` or `unicode` payload.
    Str(String),
    /// Decoded `int` payload.
    Int(IntWrapper),
    /// Decoded `bool` payload.
    Bool(bool),
    /// Decoded `float` payload, kept as its raw IEEE-754 double bits.
    Float(u64),
    /// Decoded `PyColor` payload.
    Color(ColorComponents),
    /// Decoded `Bunch` aggregate.
    Aggregate(Bunch),
    /// Decoded `Link` edge: a childless node for the referenced dictionary.
    Node(Box<UiTreeNode>),
    /// The fallback representation.
    Generic(DictEntryValueGenericRepresentation),
}

/// The mathematical content of a [`DecodedValue`].
pub enum ValueView {
    Str(Seq<char>),
    Int(IntWrapper),
    Bool(bool),
    Float(u64),
    Color(ColorComponents),
    Aggregate(Seq<EntryView>),
    Node(Box<NodeView>),
    Generic(u64, Option<Seq<char>>),
}

/// The mathematical content of a [`DictEntry`].
pub struct EntryView {
    pub key: Seq<char>,
    pub value: ValueView,
}

/// The mathematical content of a decoded value.
pub open spec fn view_of_value(v: DecodedValue) -> ValueView
    decreases v,
{
    match v {
        DecodedValue::Str(s) => ValueView::Str(s@),
        DecodedValue::Int(i) => ValueView::Int(i),
        DecodedValue::Bool(b) => ValueView::Bool(b),
        DecodedValue::Float(bits) => ValueView::Float(bits),
        DecodedValue::Color(c) => ValueView::Color(c),
        DecodedValue::Aggregate(bunch) => ValueView::Aggregate(
            view_of_entries(bunch.entries_of_interest@),
        ),
        DecodedValue::Node(node) => ValueView::Node(Box::new(view_of_node(*node))),
        DecodedValue::Generic(g) => ValueView::Generic(
            g.address,
            match g.python_object_type_name {
                Some(name) => Some(name@),
                None => None,
            },
        ),
    }
}

/// The mathematical content of one entry.
pub open spec fn view_of_entry(e: DictEntry) -> EntryView
    decreases e,
{
    EntryView { key: e.key@, value: view_of_value(e.value) }
}

/// The mathematical content of an entry list.
pub open spec fn view_of_entries(s: Seq<DictEntry>) -> Seq<EntryView>
    decreases s,
{
    Seq::new(
        s.len(),
        |i: int|
            if 0 <= i < s.len() {
                view_of_entry(s[i])
            } else {
                EntryView { key: Seq::empty(), value: ValueView::Bool(false) }
            },
    )
}

/// Structurally equal copy of a decoded value.
pub fn clone_decoded_value(v: &DecodedValue) -> (r: DecodedValue)
    ensures
        view_of_value(r) == view_of_value(*v),
    decreases *v,
{
    match v {
        DecodedValue::Str(s) => DecodedValue::Str(s.clone()),
        DecodedValue::Int(i) => DecodedValue::Int(*i),
        DecodedValue::Bool(b) => DecodedValue::Bool(*b),
        DecodedValue::Float(bits) => DecodedValue::Float(*bits),
        DecodedValue::Color(c) => DecodedValue::Color(*c),
        DecodedValue::Aggregate(bunch) => {
            proof {
                assert(decreases_to!(*v => bunch.entries_of_interest));
            }
            let entries = clone_dict_entries(&bunch.entries_of_interest);
            DecodedValue::Aggregate(Bunch { entries_of_interest: entries })
        },
        DecodedValue::Node(node) => DecodedValue::Node(
            Box::new(crate::ui_tree_node::clone_ui_tree_node(node)),
        ),
        DecodedValue::Generic(g) => DecodedValue::Generic(
            DictEntryValueGenericRepresentation {
                address: g.address,
                python_object_type_name: match &g.python_object_type_name {
                    Some(name) => Some(name.clone()),
                    None => None,
                },
            },
        ),
    }
}

/// Structurally equal copy of an entry list.
pub fn clone_dict_entries(entries: &Vec<DictEntry>) -> (r: Vec<DictEntry>)
    ensures
        view_of_entries(r@) == view_of_entries(entries@),
    decreases *entries,
{
    let mut out: Vec<DictEntry> = Vec::new();
    let n = entries.len();
    let mut i: usize = 0;
    while i < n
        invariant
            n == entries@.len(),
            0 <= i <= n,
            out@.len() == i,
            forall|k: int|
                0 <= k < i ==> #[trigger] view_of_entry(out@[k]) == view_of_entry(entries@[k]),
        decreases n - i,
    {
        proof {
            assert(decreases_to!(*entries => entries@[i as int]));
        }
        let entry = &entries[i];
        out.push(DictEntry { key: entry.key.clone(), value: clone_decoded_value(&entry.value) });
        i = i + 1;
    }
    proof {
        let a = view_of_entries(out@);
        let b = view_of_entries(entries@);
        assert(a.len() == b.len());
        assert forall|k: int| 0 <= k < a.len() implies a[k] == b[k] by {
            assert(a[k] == view_of_entry(out@[k]));
            assert(b[k] == view_of_entry(entries@[k]));
        }
        assert(a =~= b);
    }
    out
}

/// Whether some entry's key reads `k`.
pub open spec fn spec_entries_has_key(s: Seq<EntryView>, k: Seq<char>) -> bool {
    exists|i: int| 0 <= i < s.len() && (#[trigger] s[i]).key == k
}

/// The value of the first entry whose key reads `k`.
pub open spec fn spec_entries_lookup(s: Seq<EntryView>, k: Seq<char>) -> ValueView {
    s[spec_entries_index(s, k)].value
}

/// The index of the first entry whose key reads `k`.
pub open spec fn spec_entries_index(s: Seq<EntryView>, k: Seq<char>) -> int
    decreases s.len(),
{
    if s.len() == 0 {
        0
    } else if s[0].key == k {
        0
    } else {
        1 + spec_entries_index(s.drop_first(), k)
    }
}

/// The list with `e` inserted: any entry already keyed `e.key` is removed
/// first, then `e` is appended, so a later insert for the same key wins.
pub open spec fn spec_entries_insert(s: Seq<EntryView>, e: EntryView) -> Seq<EntryView> {
    if spec_entries_has_key(s, e.key) {
        s.remove(spec_entries_index(s, e.key)).push(e)
    } else {
        s.push(e)
    }
}

/// No two entries share a key.
pub open spec fn spec_entries_keys_unique(s: Seq<EntryView>) -> bool {
    forall|i: int, j: int| 0 <= i < j < s.len() ==> (#[trigger] s[i]).key != (#[trigger] s[j]).key
}

/// Relies on `str`'s `PartialEq`: two string slices compare equal exactly
/// when they hold the same characters.
#[verifier::external_body]
pub fn str_eq(a: &str, b: &str) -> (r: bool)
    ensures
        r == (a@ == b@),
{
    a == b
}

/// A reference to the value of the first entry whose key reads `key`, if any.
pub fn dict_entries_find<'a>(entries: &'a Vec<DictEntry>, key: &str) -> (r: Option<
    &'a DecodedValue,
>)
    ensures
        spec_entries_has_key(view_of_entries(entries@), key@) ==> (r matches Some(v)
            && view_of_value(*v) == spec_entries_lookup(view_of_entries(entries@), key@)),
        !spec_entries_has_key(view_of_entries(entries@), key@) ==> r is None,
{
    let ghost views = view_of_entries(entries@);
    let n = entries.len();
    let mut i: usize = 0;
    while i < n
        invariant
            views == view_of_entries(entries@),
            n == entries@.len(),
            0 <= i <= n,
            forall|k: int| 0 <= k < i ==> (#[trigger] views[k]).key != key@,
        decreases n - i,
    {
        let entry = &entries[i];
        proof {
            assert(views[i as int] == view_of_entry(entries@[i as int]));
        }
        if str_eq(entry.key.as_str(), key) {
            proof {
                lemma_entries_index_first(views, key@, i as int);
            }
            return Some(&entry.value);
        }
        i = i + 1;
    }
    None
}

/// When the first `i` entries miss `k` and entry `i` hits, the lookup index
/// is `i`.
proof fn lemma_entries_index_first(s: Seq<EntryView>, k: Seq<char>, i: int)
    requires
        0 <= i < s.len(),
        s[i].key == k,
        forall|j: int| 0 <= j < i ==> (#[trigger] s[j]).key != k,
    ensures
        spec_entries_index(s, k) == i,
        spec_entries_lookup(s, k) == s[i].value,
        spec_entries_has_key(s, k),
    decreases i,
{
    if i > 0 {
        lemma_entries_index_first(s.drop_first(), k, i - 1);
    }
}

/// Appends `key -> value`, first removing any entry already keyed `key`, so
/// a later insert for the same key wins and keys stay unique.
pub fn dict_entries_insert(entries: &mut Vec<DictEntry>, key: String, value: DecodedValue)
    requires
        spec_entries_keys_unique(view_of_entries(old(entries)@)),
    ensures
        view_of_entries(final(entries)@) == spec_entries_insert(
            view_of_entries(old(entries)@),
            EntryView { key: key@, value: view_of_value(value) },
        ),
        spec_entries_keys_unique(view_of_entries(final(entries)@)),
        spec_entries_has_key(view_of_entries(final(entries)@), key@),
        spec_entries_lookup(view_of_entries(final(entries)@), key@) == view_of_value(value),
        forall|k: Seq<char>|
            k != key@ ==> #[trigger] spec_entries_has_key(view_of_entries(final(entries)@), k)
                == spec_entries_has_key(view_of_entries(old(entries)@), k),
        forall|k: Seq<char>|
            k != key@ && spec_entries_has_key(view_of_entries(final(entries)@), k)
                ==> #[trigger] spec_entries_lookup(view_of_entries(final(entries)@), k)
                == spec_entries_lookup(view_of_entries(old(entries)@), k),
{
    let ghost original = view_of_entries(entries@);
    let mut i: usize = 0;
    let n = entries.len();
    let mut found: bool = false;
    let mut found_at: usize = 0;
    while i < n
        invariant
            n == entries@.len(),
            view_of_entries(entries@) == original,
            original.len() == n,
            0 <= i <= n,
            !found ==> forall|k: int| 0 <= k < i ==> (#[trigger] original[k]).key != key@,
            found ==> 0 <= found_at < i && original[found_at as int].key == key@,
        decreases n - i,
    {
        if !found {
            let entry = &entries[i];
            proof {
                assert(original[i as int] == view_of_entry(entries@[i as int]));
            }
            if str_eq(entry.key.as_str(), key.as_str()) {
                found = true;
                found_at = i;
            }
        }
        i = i + 1;
    }
    let ghost gkey = key@;
    let ghost gval = view_of_value(value);
    if found {
        proof {
            lemma_entries_index_first(original, gkey, found_at as int);
        }
        entries.remove(found_at);
        proof {
            assert(view_of_entries(entries@) =~= original.remove(found_at as int));
            lemma_remove_keeps_others(original, found_at as int, gkey);
        }
    }
    let ghost trimmed = view_of_entries(entries@);
    entries.push(DictEntry { key, value });
    proof {
        let e = view_of_entry(entries@.last());
        assert(view_of_entries(entries@) =~= trimmed.push(e));
        assert(e.key == gkey && e.value == gval);
        assert(e == (EntryView { key: gkey, value: gval }));
        assert(!spec_entries_has_key(trimmed, gkey));
        assert(view_of_entries(entries@) == spec_entries_insert(
            original,
            EntryView { key: gkey, value: gval },
        ));
        lemma_push_entry(trimmed, e, gkey);
        assert forall|k: Seq<char>|
            k != gkey implies #[trigger] spec_entries_has_key(view_of_entries(entries@), k)
            == spec_entries_has_key(original, k) by {
            lemma_push_entry(trimmed, e, k);
            if found {
                lemma_remove_keeps_others(original, found_at as int, k);
            }
        }
        assert forall|k: Seq<char>|
            k != gkey && spec_entries_has_key(view_of_entries(entries@), k)
            implies #[trigger] spec_entries_lookup(view_of_entries(entries@), k)
            == spec_entries_lookup(original, k) by {
            lemma_push_entry(trimmed, e, k);
            if found {
                lemma_remove_keeps_others(original, found_at as int, k);
            }
        }
    }
}

/// Removing index `r` from a unique-keyed list keeps it unique-keyed, drops
/// key `s[r].key`, and leaves every other key's presence and first value
/// unchanged.
proof fn lemma_remove_keeps_others(s: Seq<EntryView>, r: int, k: Seq<char>)
    requires
        spec_entries_keys_unique(s),
        0 <= r < s.len(),
    ensures
        spec_entries_keys_unique(s.remove(r)),
        k != s[r].key ==> spec_entries_has_key(s.remove(r), k) == spec_entries_has_key(s, k),
        k != s[r].key && spec_entries_has_key(s, k) ==> spec_entries_lookup(s.remove(r), k)
            == spec_entries_lookup(s, k),
        !spec_entries_has_key(s.remove(r), s[r].key),
{
    let t = s.remove(r);
    assert forall|i: int, j: int| 0 <= i < j < t.len() implies (#[trigger] t[i]).key
        != (#[trigger] t[j]).key by {
        let si = if i < r { i } else { i + 1 };
        let sj = if j < r { j } else { j + 1 };
        assert(t[i] == s[si] && t[j] == s[sj]);
    }
    if k != s[r].key {
        if spec_entries_has_key(s, k) {
            let i = choose|i: int| 0 <= i < s.len() && (#[trigger] s[i]).key == k;
            let ti = if i < r { i } else { i - 1 };
            assert(t[ti] == s[i]);
            assert(spec_entries_has_key(t, k));
            lemma_lookup_unique_witness(s, k, i);
            lemma_lookup_unique_witness(t, k, ti);
        }
        if spec_entries_has_key(t, k) {
            let i = choose|i: int| 0 <= i < t.len() && (#[trigger] t[i]).key == k;
            let si = if i < r { i } else { i + 1 };
            assert(t[i] == s[si]);
            assert(spec_entries_has_key(s, k));
        }
    }
    if spec_entries_has_key(t, s[r].key) {
        let i = choose|i: int| 0 <= i < t.len() && (#[trigger] t[i]).key == s[r].key;
        let si = if i < r { i } else { i + 1 };
        assert(t[i] == s[si]);
        assert(si != r);
        assert(false);
    }
}

/// In a unique-keyed list, any index whose key reads `k` is the lookup index.
proof fn lemma_lookup_unique_witness(s: Seq<EntryView>, k: Seq<char>, i: int)
    requires
        spec_entries_keys_unique(s),
        0 <= i < s.len(),
        s[i].key == k,
    ensures
        spec_entries_index(s, k) == i,
        spec_entries_lookup(s, k) == s[i].value,
        spec_entries_has_key(s, k),
{
    assert forall|j: int| 0 <= j < i implies (#[trigger] s[j]).key != k by {}
    lemma_entries_index_first(s, k, i);
}

/// Pushing an entry with a fresh key keeps the list unique-keyed, makes its
/// key look up to its value, and leaves every other key's presence and first
/// value unchanged.
proof fn lemma_push_entry(s: Seq<EntryView>, e: EntryView, k: Seq<char>)
    requires
        !spec_entries_has_key(s, e.key),
        spec_entries_keys_unique(s),
    ensures
        spec_entries_keys_unique(s.push(e)),
        spec_entries_has_key(s.push(e), e.key),
        spec_entries_lookup(s.push(e), e.key) == e.value,
        k != e.key ==> spec_entries_has_key(s.push(e), k) == spec_entries_has_key(s, k),
        k != e.key && spec_entries_has_key(s, k) ==> spec_entries_lookup(s.push(e), k)
            == spec_entries_lookup(s, k),
{
    let t = s.push(e);
    assert(t[s.len() as int].key == e.key);
    assert forall|i: int, j: int| 0 <= i < j < t.len() implies (#[trigger] t[i]).key
        != (#[trigger] t[j]).key by {
        if j < s.len() {
            assert(t[i] == s[i] && t[j] == s[j]);
        } else {
            assert(t[i] == s[i]);
        }
    }
    lemma_lookup_unique_witness(t, e.key, s.len() as int);
    if k != e.key {
        if spec_entries_has_key(s, k) {
            let i = choose|i: int| 0 <= i < s.len() && (#[trigger] s[i]).key == k;
            assert(t[i] == s[i]);
            lemma_lookup_unique_witness(s, k, i);
            lemma_lookup_unique_witness(t, k, i);
        }
        if spec_entries_has_key(t, k) {
            let i = choose|i: int| 0 <= i < t.len() && (#[trigger] t[i]).key == k;
            assert(i < s.len());
            assert(t[i] == s[i]);
            assert(spec_entries_has_key(s, k));
        }
    }
}

} // verus!
