//! The archive browsers' shared ordering: which column the rows are sorted
//! by, in which direction, and how two names compare.
use vstd::prelude::*;

use std::cmp::Ordering;

use crate::text::{lower, lower_vec};

verus! {

/// The column the browser is sorted by.
#[derive(Clone, Copy, Debug, PartialEq, Eq, Structural)]
pub enum BrowserSortKey {
    Name,
    Type,
    Size,
}

/// The direction of the sort.
#[derive(Clone, Copy, Debug, PartialEq, Eq, Structural)]
pub enum BrowserSortDirection {
    Ascending,
    Descending,
}

/// The browser's sort state.
#[derive(Clone, Copy, Debug, PartialEq, Eq, Structural)]
pub struct BrowserSort {
    pub key: BrowserSortKey,
    pub direction: BrowserSortDirection,
}

impl Default for BrowserSort {
    /// By name, ascending.
    fn default() -> (s: Self)
        ensures
            s.key == BrowserSortKey::Name,
            s.direction == BrowserSortDirection::Ascending,
    {
        BrowserSort { key: BrowserSortKey::Name, direction: BrowserSortDirection::Ascending }
    }
}

/// The sign of a comparison: -1, 0 or 1.
pub open spec fn sign_of(o: Ordering) -> int {
    match o {
        Ordering::Less => -1,
        Ordering::Equal => 0,
        Ordering::Greater => 1,
    }
}

impl BrowserSort {
    /// The state after a click on the header of `key`: the active column
    /// flips its direction, another column becomes active in ascending order.
    pub fn toggled(self, key: BrowserSortKey) -> (s: Self)
        ensures
            s == spec_toggled(self, key),
            s.key == key,
            self.key == key ==> s.direction != self.direction,
            self.key != key ==> s.direction == BrowserSortDirection::Ascending,
    {
        if self.key == key {
            BrowserSort {
                key,
                direction: match self.direction {
                    BrowserSortDirection::Ascending => BrowserSortDirection::Descending,
                    BrowserSortDirection::Descending => BrowserSortDirection::Ascending,
                },
            }
        } else {
            BrowserSort { key, direction: BrowserSortDirection::Ascending }
        }
    }

    /// The `aria-sort` value of the header of `key`.
    pub fn aria_value(self, key: BrowserSortKey) -> (s: &'static str)
        ensures
            self.key != key ==> s@ == "none"@,
            self.key == key && self.direction == BrowserSortDirection::Ascending ==> s@ == "ascending"@,
            self.key == key && self.direction == BrowserSortDirection::Descending ==> s@ == "descending"@,
    {
        if self.key != key {
            return "none";
        }
        match self.direction {
            BrowserSortDirection::Ascending => "ascending",
            BrowserSortDirection::Descending => "descending",
        }
    }

    /// The arrow shown in the header of `key`.
    pub fn indicator(self, key: BrowserSortKey) -> (s: &'static str)
        ensures
            self.key != key ==> s@ == "↕"@,
            self.key == key && self.direction == BrowserSortDirection::Ascending ==> s@ == "↑"@,
            self.key == key && self.direction == BrowserSortDirection::Descending ==> s@ == "↓"@,
    {
        if self.key != key {
            return "↕";
        }
        match self.direction {
            BrowserSortDirection::Ascending => "↑",
            BrowserSortDirection::Descending => "↓",
        }
    }

    /// A comparison of the active column, turned round when descending.
    pub fn apply(self, ordering: Ordering) -> (o: Ordering)
        ensures
            sign_of(o) == directed(self.direction, sign_of(ordering)),
    {
        match self.direction {
            BrowserSortDirection::Ascending => ordering,
            BrowserSortDirection::Descending => match ordering {
                Ordering::Less => Ordering::Greater,
                Ordering::Equal => Ordering::Equal,
                Ordering::Greater => Ordering::Less,
            },
        }
    }
}

/// The sort after a click on the header of `key`.
pub open spec fn spec_toggled(sort: BrowserSort, key: BrowserSortKey) -> BrowserSort {
    if sort.key == key {
        BrowserSort {
            key,
            direction: match sort.direction {
                BrowserSortDirection::Ascending => BrowserSortDirection::Descending,
                BrowserSortDirection::Descending => BrowserSortDirection::Ascending,
            },
        }
    } else {
        BrowserSort { key, direction: BrowserSortDirection::Ascending }
    }
}

/// Two clicks on the header of the active column restore the sort; a click
/// on another column and one back on the first sort it ascending.
pub proof fn lemma_toggle_twice(sort: BrowserSort, key: BrowserSortKey)
    ensures
        sort.key == key ==> spec_toggled(spec_toggled(sort, key), key) == sort,
        sort.key != key ==> spec_toggled(spec_toggled(sort, key), sort.key) == (BrowserSort {
            key: sort.key,
            direction: BrowserSortDirection::Ascending,
        }),
{
}

/// A comparison sign as seen in `direction`.
pub open spec fn directed(direction: BrowserSortDirection, sign: int) -> int {
    match direction {
        BrowserSortDirection::Ascending => sign,
        BrowserSortDirection::Descending => -sign,
    }
}

/// The lexicographic comparison of two character sequences, by code point:
/// -1, 0 or 1.
pub open spec fn lex_order(a: Seq<char>, b: Seq<char>) -> int
    decreases a.len(),
{
    if a.len() == 0 {
        if b.len() == 0 {
            0
        } else {
            -1
        }
    } else if b.len() == 0 {
        1
    } else if a[0] < b[0] {
        -1
    } else if b[0] < a[0] {
        1
    } else {
        lex_order(a.drop_first(), b.drop_first())
    }
}

/// The first of two signs that is not 0.
pub open spec fn then_order(first: int, second: int) -> int {
    if first != 0 {
        first
    } else {
        second
    }
}

/// How the browser compares two names: by their ASCII lower-case forms,
/// then exactly.
pub open spec fn text_order(a: Seq<char>, b: Seq<char>) -> int {
    then_order(lex_order(lower(a), lower(b)), lex_order(a, b))
}

/// The comparison of two integers: -1, 0 or 1.
pub open spec fn int_order(a: int, b: int) -> int {
    if a < b {
        -1
    } else if b < a {
        1
    } else {
        0
    }
}

/// Comparing the other way round turns the sign.
pub proof fn lemma_lex_order_antisymmetric(a: Seq<char>, b: Seq<char>)
    ensures
        lex_order(a, b) == -lex_order(b, a),
        -1 <= lex_order(a, b) <= 1,
        lex_order(a, b) == 0 <==> a == b,
    decreases a.len(),
{
    if a.len() > 0 && b.len() > 0 && a[0] == b[0] {
        lemma_lex_order_antisymmetric(a.drop_first(), b.drop_first());
        if a.drop_first() == b.drop_first() {
            assert(a =~= seq![a[0]] + a.drop_first());
            assert(b =~= seq![b[0]] + b.drop_first());
        }
    }
    if a.len() == 0 && b.len() == 0 {
        assert(a =~= b);
    }
}

/// `lex_order` of two character vectors.
pub fn lex_sign(a: &Vec<char>, b: &Vec<char>) -> (r: i8)
    ensures
        r == lex_order(a@, b@),
{
    let mut i: usize = 0;
    assert(a@.skip(0) =~= a@);
    assert(b@.skip(0) =~= b@);
    while i < a.len() && i < b.len()
        invariant
            i <= a@.len(),
            i <= b@.len(),
            lex_order(a@, b@) == lex_order(a@.skip(i as int), b@.skip(i as int)),
        decreases a@.len() - i,
    {
        let ghost sa = a@.skip(i as int);
        let ghost sb = b@.skip(i as int);
        assert(sa[0] == a@[i as int]);
        assert(sb[0] == b@[i as int]);
        if a[i] < b[i] {
            return -1;
        }
        if b[i] < a[i] {
            return 1;
        }
        assert(sa.drop_first() =~= a@.skip(i + 1));
        assert(sb.drop_first() =~= b@.skip(i + 1));
        i = i + 1;
    }
    if i < a.len() {
        1
    } else if i < b.len() {
        -1
    } else {
        0
    }
}

/// The sign of `text_order` as an `Ordering`.
fn ordering_of(sign: i8) -> (o: Ordering)
    requires
        -1 <= sign <= 1,
    ensures
        sign_of(o) == sign,
{
    if sign < 0 {
        Ordering::Less
    } else if sign > 0 {
        Ordering::Greater
    } else {
        Ordering::Equal
    }
}

/// How the browser compares two names: case-insensitively for ASCII
/// letters first, then exactly.
pub fn compare_text(left: &str, right: &str) -> (o: Ordering)
    ensures
        sign_of(o) == text_order(left@, right@),
{
    let l = crate::text::chars_of(left);
    let r = crate::text::chars_of(right);
    let sign = text_sign(&l, &r);
    ordering_of(sign)
}

/// `text_order` of two character vectors.
pub fn text_sign(l: &Vec<char>, r: &Vec<char>) -> (s: i8)
    ensures
        s == text_order(l@, r@),
        -1 <= s <= 1,
{
    let ll = lower_vec(l);
    let rl = lower_vec(r);
    let first = lex_sign(&ll, &rl);
    proof {
        lemma_lex_order_antisymmetric(ll@, rl@);
        lemma_lex_order_antisymmetric(l@, r@);
    }
    if first != 0 {
        first
    } else {
        lex_sign(l, r)
    }
}

/// The parts of a browser row that decide its place in the listing.
pub struct RowOrderKey {
    /// Folders come before files.
    pub directory: bool,
    pub name: String,
    /// What the Type column shows.
    pub type_label: String,
    pub size: u64,
    /// The row's unique key, the last tie-breaker.
    pub key: String,
}

/// A `RowOrderKey` as plain values.
pub struct RowOrderView {
    pub directory: bool,
    pub name: Seq<char>,
    pub type_label: Seq<char>,
    pub size: u64,
    pub key: Seq<char>,
}

impl View for RowOrderKey {
    type V = RowOrderView;

    open spec fn view(&self) -> RowOrderView {
        RowOrderView {
            directory: self.directory,
            name: self.name@,
            type_label: self.type_label@,
            size: self.size,
            key: self.key@,
        }
    }
}

/// Folders before files: -1, 0 or 1.
pub open spec fn folder_order(a: bool, b: bool) -> int {
    if a && !b {
        -1
    } else if !a && b {
        1
    } else {
        0
    }
}

/// The active column's comparison of two rows, before the direction.
pub open spec fn column_order(key: BrowserSortKey, a: RowOrderView, b: RowOrderView) -> int {
    match key {
        BrowserSortKey::Name => text_order(a.name, b.name),
        BrowserSortKey::Type => text_order(a.type_label, b.type_label),
        BrowserSortKey::Size => int_order(a.size as int, b.size as int),
    }
}

/// How two rows compare under `sort`: folders first; then the active
/// column in the sort's direction; then the names; then the keys.
pub open spec fn row_order(sort: BrowserSort, a: RowOrderView, b: RowOrderView) -> int {
    then_order(
        folder_order(a.directory, b.directory),
        then_order(
            directed(sort.direction, column_order(sort.key, a, b)),
            then_order(text_order(a.name, b.name), lex_order(a.key, b.key)),
        ),
    )
}

/// What a comparison `s3` of `a` and `c` must be, given the comparisons
/// `s1` of `a` and `b` and `s2` of `b` and `c`.
pub open spec fn chains(s1: int, s2: int, s3: int) -> bool {
    &&& s1 == 0 ==> s3 == s2
    &&& s2 == 0 ==> s3 == s1
    &&& s1 == s2 ==> s3 == s1
}

/// A strictly smaller sequence before a strictly smaller one.
pub proof fn lemma_lex_less_transitive(a: Seq<char>, b: Seq<char>, c: Seq<char>)
    requires
        lex_order(a, b) == -1,
        lex_order(b, c) == -1,
    ensures
        lex_order(a, c) == -1,
    decreases a.len(),
{
    if a.len() > 0 && b.len() > 0 && c.len() > 0 && a[0] == b[0] && b[0] == c[0] {
        lemma_lex_less_transitive(a.drop_first(), b.drop_first(), c.drop_first());
    }
}

/// The lexicographic comparison chains.
pub proof fn lemma_lex_order_chains(a: Seq<char>, b: Seq<char>, c: Seq<char>)
    ensures
        chains(lex_order(a, b), lex_order(b, c), lex_order(a, c)),
{
    lemma_lex_order_antisymmetric(a, b);
    lemma_lex_order_antisymmetric(b, c);
    lemma_lex_order_antisymmetric(a, c);
    if lex_order(a, b) == -1 && lex_order(b, c) == -1 {
        lemma_lex_less_transitive(a, b, c);
    }
    if lex_order(a, b) == 1 && lex_order(b, c) == 1 {
        lemma_lex_order_antisymmetric(c, b);
        lemma_lex_order_antisymmetric(b, a);
        lemma_lex_less_transitive(c, b, a);
        lemma_lex_order_antisymmetric(c, a);
    }
}

/// Comparing by a first criterion, then a second, chains when both do.
proof fn lemma_then_order_chains(x1: int, x2: int, x3: int, y1: int, y2: int, y3: int)
    requires
        chains(x1, x2, x3),
        chains(y1, y2, y3),
    ensures
        chains(then_order(x1, y1), then_order(x2, y2), then_order(x3, y3)),
{
}

/// The browser's name comparison chains.
proof fn lemma_text_order_chains(a: Seq<char>, b: Seq<char>, c: Seq<char>)
    ensures
        chains(text_order(a, b), text_order(b, c), text_order(a, c)),
{
    lemma_lex_order_chains(lower(a), lower(b), lower(c));
    lemma_lex_order_chains(a, b, c);
    lemma_then_order_chains(
        lex_order(lower(a), lower(b)),
        lex_order(lower(b), lower(c)),
        lex_order(lower(a), lower(c)),
        lex_order(a, b),
        lex_order(b, c),
        lex_order(a, c),
    );
}

/// If `a` comes no later than `b`, and `b` no later than `c`, then `a`
/// comes no later than `c`: the browser's order is transitive.
pub proof fn lemma_row_order_transitive(sort: BrowserSort, a: RowOrderView, b: RowOrderView, c: RowOrderView)
    requires
        row_order(sort, a, b) <= 0,
        row_order(sort, b, c) <= 0,
    ensures
        row_order(sort, a, c) <= 0,
{
    lemma_row_order_antisymmetric(sort, a, b);
    lemma_row_order_antisymmetric(sort, b, c);
    lemma_text_order_chains(a.name, b.name, c.name);
    lemma_text_order_chains(a.type_label, b.type_label, c.type_label);
    lemma_lex_order_chains(a.key, b.key, c.key);
    let c1 = column_order(sort.key, a, b);
    let c2 = column_order(sort.key, b, c);
    let c3 = column_order(sort.key, a, c);
    assert(chains(c1, c2, c3));
    assert(chains(directed(sort.direction, c1), directed(sort.direction, c2), directed(sort.direction, c3)));
    lemma_then_order_chains(
        text_order(a.name, b.name),
        text_order(b.name, c.name),
        text_order(a.name, c.name),
        lex_order(a.key, b.key),
        lex_order(b.key, c.key),
        lex_order(a.key, c.key),
    );
    let n1 = then_order(text_order(a.name, b.name), lex_order(a.key, b.key));
    let n2 = then_order(text_order(b.name, c.name), lex_order(b.key, c.key));
    let n3 = then_order(text_order(a.name, c.name), lex_order(a.key, c.key));
    lemma_then_order_chains(
        directed(sort.direction, c1),
        directed(sort.direction, c2),
        directed(sort.direction, c3),
        n1,
        n2,
        n3,
    );
    lemma_then_order_chains(
        folder_order(a.directory, b.directory),
        folder_order(b.directory, c.directory),
        folder_order(a.directory, c.directory),
        then_order(directed(sort.direction, c1), n1),
        then_order(directed(sort.direction, c2), n2),
        then_order(directed(sort.direction, c3), n3),
    );
}

/// Names compare the other way round with the opposite sign.
pub proof fn lemma_text_order_antisymmetric(a: Seq<char>, b: Seq<char>)
    ensures
        text_order(a, b) == -text_order(b, a),
        -1 <= text_order(a, b) <= 1,
{
    lemma_lex_order_antisymmetric(lower(a), lower(b));
    lemma_lex_order_antisymmetric(a, b);
}

/// Rows compare the other way round with the opposite sign, and two rows
/// with different keys never tie.
pub proof fn lemma_row_order_antisymmetric(sort: BrowserSort, a: RowOrderView, b: RowOrderView)
    ensures
        row_order(sort, a, b) == -row_order(sort, b, a),
        -1 <= row_order(sort, a, b) <= 1,
        a.key != b.key ==> row_order(sort, a, b) != 0,
{
    lemma_text_order_antisymmetric(a.name, b.name);
    lemma_text_order_antisymmetric(a.type_label, b.type_label);
    lemma_lex_order_antisymmetric(a.key, b.key);
}

/// `row_order` of two rows.
pub fn row_sign(sort: BrowserSort, a: &RowOrderKey, b: &RowOrderKey) -> (s: i8)
    ensures
        s == row_order(sort, a@, b@),
{
    proof {
        lemma_row_order_antisymmetric(sort, a@, b@);
    }
    if a.directory && !b.directory {
        return -1;
    }
    if !a.directory && b.directory {
        return 1;
    }
    let primary: i8 = match sort.key {
        BrowserSortKey::Name => name_sign(&a.name, &b.name),
        BrowserSortKey::Type => name_sign(&a.type_label, &b.type_label),
        BrowserSortKey::Size => if a.size < b.size {
            -1
        } else if b.size < a.size {
            1
        } else {
            0
        },
    };
    proof {
        lemma_text_order_antisymmetric(a.name@, b.name@);
        lemma_text_order_antisymmetric(a.type_label@, b.type_label@);
    }
    let directed_sign: i8 = match sort.direction {
        BrowserSortDirection::Ascending => primary,
        BrowserSortDirection::Descending => -primary,
    };
    if directed_sign != 0 {
        return directed_sign;
    }
    let by_name = name_sign(&a.name, &b.name);
    if by_name != 0 {
        return by_name;
    }
    let ka = crate::text::chars_of(a.key.as_str());
    let kb = crate::text::chars_of(b.key.as_str());
    lex_sign(&ka, &kb)
}

/// `text_order` of two strings.
fn name_sign(a: &String, b: &String) -> (s: i8)
    ensures
        s == text_order(a@, b@),
        -1 <= s <= 1,
{
    let l = crate::text::chars_of(a.as_str());
    let r = crate::text::chars_of(b.as_str());
    text_sign(&l, &r)
}

/// `order` lists each of `0..n` exactly once.
pub open spec fn is_permutation(order: Seq<usize>, n: nat) -> bool {
    &&& order.len() == n
    &&& forall|k: int| 0 <= k < order.len() ==> #[trigger] order[k] < n
    &&& forall|k: int, l: int| 0 <= k < l < order.len() ==> order[k] != order[l]
}

/// The order in which the browser lists `rows`: positions into `rows`, each
/// once, every row placed no later than any row after it under `sort`.
pub fn browser_order(rows: &Vec<RowOrderKey>, sort: BrowserSort) -> (order: Vec<usize>)
    ensures
        is_permutation(order@, rows@.len()),
        forall|k: int, l: int|
            0 <= k < l < order@.len() ==> row_order(sort, rows@[#[trigger] order@[k] as int]@, rows@[#[trigger] order@[l] as int]@)
                <= 0,
{
    let mut order: Vec<usize> = Vec::new();
    let n = rows.len();
    for i in 0..n
        invariant
            n == rows@.len(),
            order@.len() == i,
            forall|k: int| 0 <= k < order@.len() ==> #[trigger] order@[k] < i,
            forall|k: int, l: int| 0 <= k < l < order@.len() ==> order@[k] != order@[l],
            forall|k: int, l: int|
                0 <= k < l < order@.len() ==> row_order(sort, rows@[#[trigger] order@[k] as int]@, rows@[#[trigger] order@[l] as int]@)
                    <= 0,
    {
        let mut p = order.len();
        while p > 0 && row_sign(sort, &rows[order[p - 1]], &rows[i]) > 0
            invariant
                n == rows@.len(),
                i < n,
                order@.len() == i,
                forall|k: int| 0 <= k < order@.len() ==> #[trigger] order@[k] < i,
                p <= order@.len(),
                forall|q: int| p <= q < order@.len() ==> row_order(sort, rows@[#[trigger] order@[q] as int]@, rows@[i as int]@) > 0,
            decreases p,
        {
            p = p - 1;
        }
        let ghost before = order@;
        proof {
            if p < before.len() {
                lemma_row_order_antisymmetric(sort, rows@[before[p as int] as int]@, rows@[i as int]@);
            }
        }
        order.insert(p, i);
        proof {
            let x = rows@[i as int]@;
            assert forall|k: int, l: int| 0 <= k < l < order@.len() implies row_order(sort, rows@[#[trigger] order@[k] as int]@, rows@[#[trigger] order@[l] as int]@)
                <= 0 by {
                if l < p {
                    assert(order@[k] == before[k] && order@[l] == before[l]);
                } else if l == p {
                    assert(order@[k] == before[k]);
                    if k < p - 1 {
                        lemma_row_order_transitive(sort, rows@[before[k] as int]@, rows@[before[p - 1] as int]@, x);
                    }
                } else if k == p {
                    assert(order@[l] == before[l - 1]);
                    lemma_row_order_antisymmetric(sort, rows@[before[l - 1] as int]@, x);
                } else if k < p {
                    assert(order@[k] == before[k] && order@[l] == before[l - 1]);
                } else {
                    assert(order@[k] == before[k - 1] && order@[l] == before[l - 1]);
                }
            }
            assert forall|k: int, l: int| 0 <= k < l < order@.len() implies order@[k] != order@[l] by {
                if k < p && l < p {
                } else if k < p && l == p {
                    assert(before[k] < i);
                } else if k < p {
                    assert(order@[l] == before[l - 1]);
                } else if k == p {
                    assert(order@[l] == before[l - 1]);
                    assert(before[l - 1] < i);
                } else {
                    assert(order@[k] == before[k - 1]);
                    assert(order@[l] == before[l - 1]);
                }
            }
        }
    }
    order
}

/// Two texts compare equal only when they are the same text.
pub proof fn lemma_lex_order_zero(a: Seq<char>, b: Seq<char>)
    ensures
        lex_order(a, b) == 0 ==> a == b,
    decreases a.len(),
{
    if a.len() > 0 && b.len() > 0 && a[0] == b[0] {
        lemma_lex_order_zero(a.drop_first(), b.drop_first());
        if lex_order(a, b) == 0 {
            assert(a =~= seq![a[0]] + a.drop_first());
            assert(b =~= seq![b[0]] + b.drop_first());
        }
    }
}

/// What a sorted listing means. Of two rows listed one after the other
/// under `sort`: a folder never follows a file; and when both are folders
/// or both are files, the column sorted by decides wherever it tells them
/// apart. By name or by type, the row whose name or type label comes first
/// ignoring ASCII case is placed first (last when descending), whatever the
/// other columns hold; by size, the smaller row is placed first (last when
/// descending).
pub proof fn lemma_sorted_rows_follow_column(sort: BrowserSort, rows: Seq<RowOrderView>)
    requires
        forall|k: int, l: int| 0 <= k < l < rows.len() ==> row_order(sort, #[trigger] rows[k], #[trigger] rows[l]) <= 0,
    ensures
        forall|k: int, l: int|
            #![trigger rows[k], rows[l]]
            0 <= k < l < rows.len() ==> {
                let a = rows[k];
                let b = rows[l];
                &&& !a.directory ==> !b.directory
                &&& a.directory == b.directory && sort.key == BrowserSortKey::Name && lower(a.name) != lower(b.name)
                    ==> if sort.direction == BrowserSortDirection::Ascending {
                    lex_order(lower(a.name), lower(b.name)) < 0
                } else {
                    lex_order(lower(a.name), lower(b.name)) > 0
                }
                &&& a.directory == b.directory && sort.key == BrowserSortKey::Type && lower(a.type_label) != lower(
                    b.type_label,
                ) ==> if sort.direction == BrowserSortDirection::Ascending {
                    lex_order(lower(a.type_label), lower(b.type_label)) < 0
                } else {
                    lex_order(lower(a.type_label), lower(b.type_label)) > 0
                }
                &&& a.directory == b.directory && sort.key == BrowserSortKey::Size && a.size != b.size
                    ==> if sort.direction == BrowserSortDirection::Ascending {
                    a.size < b.size
                } else {
                    a.size > b.size
                }
            },
{
    assert forall|k: int, l: int| #![trigger rows[k], rows[l]] 0 <= k < l < rows.len() implies {
        let a = rows[k];
        let b = rows[l];
        &&& !a.directory ==> !b.directory
        &&& a.directory == b.directory && sort.key == BrowserSortKey::Name && lower(a.name) != lower(b.name)
            ==> if sort.direction == BrowserSortDirection::Ascending {
            lex_order(lower(a.name), lower(b.name)) < 0
        } else {
            lex_order(lower(a.name), lower(b.name)) > 0
        }
        &&& a.directory == b.directory && sort.key == BrowserSortKey::Type && lower(a.type_label) != lower(
            b.type_label,
        ) ==> if sort.direction == BrowserSortDirection::Ascending {
            lex_order(lower(a.type_label), lower(b.type_label)) < 0
        } else {
            lex_order(lower(a.type_label), lower(b.type_label)) > 0
        }
        &&& a.directory == b.directory && sort.key == BrowserSortKey::Size && a.size != b.size
            ==> if sort.direction == BrowserSortDirection::Ascending {
            a.size < b.size
        } else {
            a.size > b.size
        }
    } by {
        let a = rows[k];
        let b = rows[l];
        assert(row_order(sort, a, b) <= 0);
        lemma_lex_order_zero(lower(a.name), lower(b.name));
        lemma_lex_order_zero(lower(a.type_label), lower(b.type_label));
    }
}

} // verus!
