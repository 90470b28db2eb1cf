use vstd::prelude::*;

verus! {

/// One launchable application, as the configuration file lists it.
#[derive(Clone, Debug)]
pub struct AppEntry {
    pub name: String,
    pub command: String,
    pub icon: String,
    pub category: String,
}

impl AppEntry {
    /// A field-for-field copy of the entry.
    pub fn duplicate(&self) -> (r: AppEntry)
        ensures
            r == *self,
    {
        AppEntry {
            name: self.name.clone(),
            command: self.command.clone(),
            icon: self.icon.clone(),
            category: self.category.clone(),
        }
    }
}

/// One tab: a category name and its applications in configuration order.
#[derive(Clone, Debug)]
pub struct Category {
    pub name: String,
    pub apps: Vec<AppEntry>,
}

/// The grouped application list: tabs sorted by category name, each tab
/// holding the entries that declare its category, in configuration order.
#[derive(Clone, Debug)]
pub struct Catalog {
    pub categories: Vec<Category>,
}

/// Strict lexicographic order on character sequences by code point: a proper
/// prefix comes first, otherwise the first differing position decides.
pub open spec fn lex_lt(a: Seq<char>, b: Seq<char>) -> bool
    decreases a.len(),
{
    if b.len() == 0 {
        false
    } else if a.len() == 0 {
        true
    } else if a[0] != b[0] {
        (a[0] as u32) < (b[0] as u32)
    } else {
        lex_lt(a.skip(1), b.skip(1))
    }
}

/// Two characters with the same code point are the same character.
proof fn lemma_char_code_injective(c1: char, c2: char)
    requires
        c1 as u32 == c2 as u32,
    ensures
        c1 == c2,
{
    vstd::utf8::char_u32_cast(c1, c1 as u32);
    vstd::utf8::char_u32_cast(c2, c2 as u32);
}

proof fn lemma_lex_irreflexive(a: Seq<char>)
    ensures
        !lex_lt(a, a),
    decreases a.len(),
{
    if a.len() > 0 {
        lemma_lex_irreflexive(a.skip(1));
    }
}

/// Any two character sequences compare one way, the other way, or are equal.
proof fn lemma_lex_trichotomy(a: Seq<char>, b: Seq<char>)
    ensures
        lex_lt(a, b) || lex_lt(b, a) || a == b,
    decreases a.len(),
{
    if a.len() == 0 && b.len() == 0 {
        assert(a =~= b);
    } else if a.len() > 0 && b.len() > 0 && a[0] == b[0] {
        lemma_lex_trichotomy(a.skip(1), b.skip(1));
        if a.skip(1) == b.skip(1) {
            assert(a.skip(1).len() == a.len() - 1);
            assert(b.skip(1).len() == b.len() - 1);
            assert(a.len() == b.len());
            assert forall|i: int| 0 <= i < a.len() implies a[i] == b[i] by {
                if i >= 1 {
                    assert(a[i] == a.skip(1)[i - 1]);
                    assert(b[i] == b.skip(1)[i - 1]);
                }
            }
            assert(a =~= b);
        }
    } else if a.len() > 0 && b.len() > 0 {
        if a[0] as u32 == b[0] as u32 {
            lemma_char_code_injective(a[0], b[0]);
        }
    }
}

/// The order is transitive.
proof fn lemma_lex_transitive(a: Seq<char>, b: Seq<char>, c: Seq<char>)
    requires
        lex_lt(a, b),
        lex_lt(b, c),
    ensures
        lex_lt(a, c),
    decreases a.len(),
{
    if a.len() > 0 && b.len() > 0 && c.len() > 0 {
        if a[0] == b[0] && b[0] == c[0] {
            lemma_lex_transitive(a.skip(1), b.skip(1), c.skip(1));
        }
    }
}

/// Equal prefixes of length `i` do not affect the comparison.
proof fn lemma_lex_skip(a: Seq<char>, b: Seq<char>, i: int)
    requires
        0 <= i <= a.len(),
        i <= b.len(),
        forall|j: int| 0 <= j < i ==> a[j] == b[j],
    ensures
        lex_lt(a, b) == lex_lt(a.skip(i), b.skip(i)),
    decreases i,
{
    if i == 0 {
        assert(a.skip(0) =~= a);
        assert(b.skip(0) =~= b);
    } else {
        assert(forall|j: int|
            0 <= j < i - 1 ==> #[trigger] a.skip(1)[j] == a[j + 1] && b.skip(1)[j] == b[j + 1]);
        lemma_lex_skip(a.skip(1), b.skip(1), i - 1);
        assert(a.skip(1).skip(i - 1) =~= a.skip(i));
        assert(b.skip(1).skip(i - 1) =~= b.skip(i));
    }
}

/// Compare two strings in the lexicographic order of their characters.
fn str_lt(a: &str, b: &str) -> (r: bool)
    ensures
        r == lex_lt(a@, b@),
{
    let alen = a.unicode_len();
    let blen = b.unicode_len();
    let mut i: usize = 0;
    while i < alen && i < blen
        invariant
            i <= alen,
            i <= blen,
            alen == a@.len(),
            blen == b@.len(),
            forall|j: int| 0 <= j < i ==> a@[j] == b@[j],
        decreases alen - i,
    {
        let ca = a.get_char(i);
        let cb = b.get_char(i);
        if (ca as u32) != (cb as u32) {
            proof {
                lemma_lex_skip(a@, b@, i as int);
                assert(a@.skip(i as int)[0] == a@[i as int]);
                assert(b@.skip(i as int)[0] == b@[i as int]);
            }
            return (ca as u32) < (cb as u32);
        }
        proof {
            lemma_char_code_injective(ca, cb);
        }
        i = i + 1;
    }
    proof {
        lemma_lex_skip(a@, b@, i as int);
    }
    alen < blen
}

/// Whether some entry of `s` declares the category `cat`.
pub open spec fn cat_occurs(s: Seq<AppEntry>, cat: Seq<char>) -> bool {
    exists|i: int| 0 <= i < s.len() && (#[trigger] s[i]).category@ == cat
}

/// The entries of `s` whose category is `cat`, in their order in `s`.
pub open spec fn entries_with_cat(s: Seq<AppEntry>, cat: Seq<char>) -> Seq<AppEntry>
    decreases s.len(),
{
    if s.len() == 0 {
        Seq::empty()
    } else {
        let prefix = entries_with_cat(s.drop_last(), cat);
        if s.last().category@ == cat {
            prefix.push(s.last())
        } else {
            prefix
        }
    }
}

/// Every filtered entry declares the category, and the filter is non-empty
/// exactly when the category occurs.
proof fn lemma_entries_with_cat(s: Seq<AppEntry>, cat: Seq<char>)
    ensures
        forall|k: int|
            0 <= k < entries_with_cat(s, cat).len() ==> (#[trigger] entries_with_cat(s, cat)[k])
                .category@ == cat,
        cat_occurs(s, cat) == (entries_with_cat(s, cat).len() > 0),
    decreases s.len(),
{
    if s.len() == 0 {
        assert(!cat_occurs(s, cat));
    } else {
        let d = s.drop_last();
        lemma_entries_with_cat(d, cat);
        assert(forall|i: int| 0 <= i < d.len() ==> #[trigger] d[i] == s[i]);
        if s.last().category@ == cat {
            assert(s[s.len() - 1].category@ == cat);
            assert(cat_occurs(s, cat));
        } else {
            if cat_occurs(s, cat) {
                let i = choose|i: int| 0 <= i < s.len() && (#[trigger] s[i]).category@ == cat;
                assert(d[i] == s[i]);
                assert(cat_occurs(d, cat));
            }
            if cat_occurs(d, cat) {
                let i = choose|i: int| 0 <= i < d.len() && (#[trigger] d[i]).category@ == cat;
                assert(s[i] == d[i]);
                assert(cat_occurs(s, cat));
            }
        }
    }
}

/// Whether one of the names reads `n`.
pub open spec fn names_contain(ns: Seq<String>, n: Seq<char>) -> bool {
    exists|i: int| 0 <= i < ns.len() && (#[trigger] ns[i])@ == n
}

/// The names are in strictly ascending lexicographic order.
pub open spec fn names_sorted(ns: Seq<String>) -> bool {
    forall|i: int, j: int| 0 <= i < j < ns.len() ==> lex_lt(#[trigger] ns[i]@, #[trigger] ns[j]@)
}

/// Put `cat` into its place in a sorted name list, unless it is already there.
fn insert_name(names: &mut Vec<String>, cat: &String)
    requires
        names_sorted(old(names)@),
    ensures
        names_sorted(final(names)@),
        forall|n: Seq<char>|
            names_contain(final(names)@, n) == (names_contain(old(names)@, n) || n == cat@),
{
    let mut p: usize = 0;
    while p < names.len() && str_lt(names[p].as_str(), cat.as_str())
        invariant
            p <= names@.len(),
            names@ == old(names)@,
            forall|j: int| 0 <= j < p ==> lex_lt((#[trigger] names@[j])@, cat@),
        decreases names@.len() - p,
    {
        p = p + 1;
    }
    if p < names.len() && !str_lt(cat.as_str(), names[p].as_str()) {
        proof {
            lemma_lex_trichotomy(cat@, names@[p as int]@);
            assert(names@[p as int]@ == cat@);
            assert forall|n: Seq<char>|
                names_contain(names@, n) == (names_contain(old(names)@, n) || n == cat@) by {
                if n == cat@ {
                    assert(names_contain(names@, n));
                }
            }
        }
        return ;
    }
    let ghost prev = names@;
    let ghost pos = p as int;
    names.insert(p, cat.clone());
    proof {
        prev.insert_ensures(pos, names@[pos]);
        assert(names@ == prev.insert(pos, names@[pos]));
        assert(names@[pos]@ == cat@);
        assert(names@.len() == prev.len() + 1);
        if pos < prev.len() {
            lemma_lex_trichotomy(cat@, prev[pos]@);
            assert(lex_lt(cat@, prev[pos]@));
        }
        assert forall|i: int, j: int| 0 <= i < j < names@.len() implies lex_lt(
            (#[trigger] names@[i])@,
            (#[trigger] names@[j])@,
        ) by {
            if i < pos && j < pos {
                assert(names@[i] == prev[i] && names@[j] == prev[j]);
            } else if i < pos && j == pos {
                assert(names@[i] == prev[i]);
                assert(lex_lt(prev[i]@, cat@));
            } else if i < pos && j > pos {
                assert(names@[i] == prev[i] && names@[j] == prev[j - 1]);
                if j - 1 == i {
                    assert(lex_lt(prev[i]@, cat@));
                    assert(lex_lt(cat@, prev[pos]@));
                    lemma_lex_transitive(prev[i]@, cat@, prev[pos]@);
                }
            } else if i == pos && j > pos {
                assert(names@[j] == prev[j - 1]);
                assert(lex_lt(cat@, prev[pos]@));
                if j - 1 > pos {
                    lemma_lex_transitive(cat@, prev[pos]@, prev[j - 1]@);
                }
            } else {
                assert(names@[i] == prev[i - 1] && names@[j] == prev[j - 1]);
            }
        }
        assert forall|n: Seq<char>|
            names_contain(names@, n) == (names_contain(prev, n) || n == cat@) by {
            if names_contain(names@, n) {
                let i = choose|i: int| 0 <= i < names@.len() && (#[trigger] names@[i])@ == n;
                if i == pos {
                    assert(n == cat@);
                } else if i < pos {
                    assert(names@[i] == prev[i]);
                    assert(names_contain(prev, n));
                } else {
                    assert(names@[i] == prev[i - 1]);
                    assert(names_contain(prev, n));
                }
            }
            if names_contain(prev, n) {
                let i = choose|i: int| 0 <= i < prev.len() && (#[trigger] prev[i])@ == n;
                if i < pos {
                    assert(names@[i] == prev[i]);
                    assert(names_contain(names@, n));
                } else {
                    assert(names@[i + 1] == prev[i]);
                    assert(names_contain(names@, n));
                }
            }
            if n == cat@ {
                assert((names@[pos])@ == n);
                assert(names_contain(names@, n));
            }
        }
    }
}

/// The sorted list of distinct category names that the entries declare.
fn sorted_category_names(entries: &Vec<AppEntry>) -> (names: Vec<String>)
    ensures
        names_sorted(names@),
        forall|n: Seq<char>| names_contain(names@, n) == cat_occurs(entries@, n),
{
    let mut names: Vec<String> = Vec::new();
    let mut k: usize = 0;
    while k < entries.len()
        invariant
            k <= entries@.len(),
            names_sorted(names@),
            forall|n: Seq<char>|
                names_contain(names@, n) == cat_occurs(entries@.take(k as int), n),
        decreases entries@.len() - k,
    {
        let ghost before = names@;
        insert_name(&mut names, &entries[k].category);
        proof {
            let t1 = entries@.take(k as int + 1);
            let t0 = entries@.take(k as int);
            assert(forall|i: int| 0 <= i < t0.len() ==> #[trigger] t0[i] == t1[i]);
            assert(t1[k as int] == entries@[k as int]);
            assert forall|n: Seq<char>|
                names_contain(names@, n) == cat_occurs(t1, n) by {
                if names_contain(names@, n) {
                    if names_contain(before, n) {
                        let i = choose|i: int| 0 <= i < t0.len() && (#[trigger] t0[i]).category@ == n;
                        assert(t1[i].category@ == n);
                        assert(cat_occurs(t1, n));
                    } else {
                        assert(n == entries@[k as int].category@);
                        assert(t1[k as int].category@ == n);
                        assert(cat_occurs(t1, n));
                    }
                }
                if cat_occurs(t1, n) {
                    let i = choose|i: int| 0 <= i < t1.len() && (#[trigger] t1[i]).category@ == n;
                    if i < k {
                        assert(t0[i] == t1[i]);
                        assert(cat_occurs(t0, n));
                        assert(names_contain(before, n));
                    } else {
                        assert(n == entries@[k as int].category@);
                    }
                    assert(names_contain(names@, n));
                }
            }
        }
        k = k + 1;
    }
    proof {
        assert(entries@.take(entries@.len() as int) =~= entries@);
    }
    names
}

/// Collect the entries that declare the given category, in order.
fn entries_for_category(entries: &Vec<AppEntry>, name: &String) -> (apps: Vec<AppEntry>)
    ensures
        apps@ == entries_with_cat(entries@, name@),
{
    let mut apps: Vec<AppEntry> = Vec::new();
    let mut k: usize = 0;
    while k < entries.len()
        invariant
            k <= entries@.len(),
            apps@ == entries_with_cat(entries@.take(k as int), name@),
        decreases entries@.len() - k,
    {
        proof {
            assert(entries@.take(k as int + 1).drop_last() =~= entries@.take(k as int));
            assert(entries@.take(k as int + 1).last() == entries@[k as int]);
        }
        if entries[k].category.eq(name) {
            apps.push(entries[k].duplicate());
        }
        k = k + 1;
    }
    proof {
        assert(entries@.take(entries@.len() as int) =~= entries@);
    }
    apps
}

impl Catalog {
    /// Whether some tab carries the name `n`.
    pub open spec fn has_category(self, n: Seq<char>) -> bool {
        exists|i: int|
            0 <= i < self.categories@.len() && (#[trigger] self.categories@[i]).name@ == n
    }

    /// Well-formed: tab names strictly ascending, and every tab non-empty with
    /// each of its entries declaring the tab's category.
    pub open spec fn wf(self) -> bool {
        &&& forall|i: int, j: int|
            0 <= i < j < self.categories@.len() ==> lex_lt(
                (#[trigger] self.categories@[i]).name@,
                (#[trigger] self.categories@[j]).name@,
            )
        &&& forall|i: int|
            0 <= i < self.categories@.len() ==> (#[trigger] self.categories@[i]).apps@.len() > 0
        &&& forall|i: int, k: int|
            0 <= i < self.categories@.len() && 0 <= k < self.categories@[i].apps@.len()
                ==> (#[trigger] self.categories@[i].apps@[k]).category@
                == self.categories@[i].name@
    }

    /// How many tabs the catalog shows.
    pub fn tab_count(&self) -> (n: usize)
        ensures
            n == self.categories@.len(),
    {
        self.categories.len()
    }

    /// The name of the tab at `tab`.
    pub fn tab_name(&self, tab: usize) -> (r: &String)
        requires
            tab < self.categories@.len(),
        ensures
            *r == self.categories@[tab as int].name,
    {
        &self.categories[tab].name
    }

    /// How many applications the tab at `tab` lists.
    pub fn tab_app_count(&self, tab: usize) -> (n: usize)
        requires
            tab < self.categories@.len(),
        ensures
            n == self.categories@[tab as int].apps@.len(),
    {
        self.categories[tab].apps.len()
    }

    /// The entry at the given tab and selection, or nothing when either index
    /// is out of range.
    pub fn entry_at(&self, tab: usize, sel: usize) -> (r: Option<&AppEntry>)
        ensures
            (tab < self.categories@.len() && sel < self.categories@[tab as int].apps@.len())
                ==> (r matches Option::Some(e)
                    && *e == self.categories@[tab as int].apps@[sel as int]),
            !(tab < self.categories@.len() && sel < self.categories@[tab as int].apps@.len())
                ==> r is None,
    {
        if tab < self.categories.len() {
            let cat = &self.categories[tab];
            if sel < cat.apps.len() {
                return Option::Some(&cat.apps[sel]);
            }
        }
        Option::None
    }
}

/// What ties a catalog to the entry list it was built from: tabs strictly
/// sorted by name, a tab for exactly the categories that occur, and each tab
/// holding exactly the entries that declare its category, in order.
pub open spec fn is_catalog_of(c: Catalog, s: Seq<AppEntry>) -> bool {
    &&& forall|i: int, j: int|
        0 <= i < j < c.categories@.len() ==> lex_lt(
            (#[trigger] c.categories@[i]).name@,
            (#[trigger] c.categories@[j]).name@,
        )
    &&& forall|n: Seq<char>| c.has_category(n) == cat_occurs(s, n)
    &&& forall|i: int|
        0 <= i < c.categories@.len() ==> (#[trigger] c.categories@[i]).apps@ == entries_with_cat(
            s,
            c.categories@[i].name@,
        )
}

/// Group a flat entry list into a catalog: one tab per distinct category, tabs
/// sorted by name, entries kept in configuration order within their tab.
pub fn from_entries(entries: &Vec<AppEntry>) -> (c: Catalog)
    ensures
        c.wf(),
        is_catalog_of(c, entries@),
{
    let names = sorted_category_names(entries);
    let mut categories: Vec<Category> = Vec::new();
    let mut i: usize = 0;
    while i < names.len()
        invariant
            i <= names@.len(),
            names_sorted(names@),
            forall|n: Seq<char>| names_contain(names@, n) == cat_occurs(entries@, n),
            categories@.len() == i,
            forall|t: int|
                0 <= t < i ==> (#[trigger] categories@[t]).name@ == names@[t]@
                    && categories@[t].apps@ == entries_with_cat(entries@, names@[t]@),
        decreases names@.len() - i,
    {
        let apps = entries_for_category(entries, &names[i]);
        let cat_name = names[i].clone();
        categories.push(Category { name: cat_name, apps });
        i = i + 1;
    }
    let c = Catalog { categories };
    proof {
        assert forall|n: Seq<char>| c.has_category(n) == cat_occurs(entries@, n) by {
            if c.has_category(n) {
                let t = choose|t: int|
                    0 <= t < c.categories@.len() && (#[trigger] c.categories@[t]).name@ == n;
                assert(names@[t]@ == n);
                assert(names_contain(names@, n));
            }
            if cat_occurs(entries@, n) {
                assert(names_contain(names@, n));
                let t = choose|t: int| 0 <= t < names@.len() && (#[trigger] names@[t])@ == n;
                assert(c.categories@[t].name@ == n);
                assert(c.has_category(n));
            }
        }
        assert forall|t: int| 0 <= t < c.categories@.len() implies (
        #[trigger] c.categories@[t]).apps@.len() > 0 by {
            lemma_entries_with_cat(entries@, c.categories@[t].name@);
            assert(names_contain(names@, names@[t]@));
            assert(c.has_category(c.categories@[t].name@));
        }
        assert forall|t: int, k: int|
            0 <= t < c.categories@.len() && 0 <= k < c.categories@[t].apps@.len() implies (
        #[trigger] c.categories@[t].apps@[k]).category@ == c.categories@[t].name@ by {
            lemma_entries_with_cat(entries@, c.categories@[t].name@);
        }
    }
    c
}

/// Law: tab names are distinct: two different tabs of a well-formed catalog
/// never carry the same name.
pub proof fn lemma_tab_names_distinct(c: Catalog, i: int, j: int)
    requires
        c.wf(),
        0 <= i < c.categories@.len(),
        0 <= j < c.categories@.len(),
        i != j,
    ensures
        c.categories@[i].name@ != c.categories@[j].name@,
{
    if c.categories@[i].name@ == c.categories@[j].name@ {
        lemma_lex_irreflexive(c.categories@[i].name@);
    }
}

/// Two strictly sorted name lists with the same members are the same list.
proof fn lemma_sorted_names_unique(x: Seq<Seq<char>>, y: Seq<Seq<char>>)
    requires
        forall|i: int, j: int| 0 <= i < j < x.len() ==> lex_lt(#[trigger] x[i], #[trigger] x[j]),
        forall|i: int, j: int| 0 <= i < j < y.len() ==> lex_lt(#[trigger] y[i], #[trigger] y[j]),
        forall|n: Seq<char>| x.contains(n) == y.contains(n),
    ensures
        x =~= y,
    decreases x.len(),
{
    if x.len() == 0 {
        if y.len() > 0 {
            assert(y.contains(y[0]));
            assert(x.contains(y[0]));
        }
    } else {
        assert(x.contains(x[0]));
        assert(y.contains(x[0]));
        let k = choose|k: int| 0 <= k < y.len() && y[k] == x[0];
        if k > 0 {
            assert(y.contains(y[0]));
            assert(x.contains(y[0]));
            let m = choose|m: int| 0 <= m < x.len() && x[m] == y[0];
            assert(lex_lt(y[0], y[k]));
            if m > 0 {
                assert(lex_lt(x[0], x[m]));
                lemma_lex_transitive(x[0], y[0], x[0]);
                lemma_lex_irreflexive(x[0]);
            } else {
                lemma_lex_irreflexive(y[0]);
            }
        }
        assert(y[0] == x[0]);
        let xs = x.skip(1);
        let ys = y.skip(1);
        assert(forall|i: int| 0 <= i < xs.len() ==> #[trigger] xs[i] == x[i + 1]);
        assert(forall|i: int| 0 <= i < ys.len() ==> #[trigger] ys[i] == y[i + 1]);
        assert forall|n: Seq<char>| xs.contains(n) == ys.contains(n) by {
            if xs.contains(n) {
                let i = choose|i: int| 0 <= i < xs.len() && xs[i] == n;
                assert(x[i + 1] == n);
                assert(x.contains(n));
                assert(y.contains(n));
                let j = choose|j: int| 0 <= j < y.len() && y[j] == n;
                if j == 0 {
                    assert(lex_lt(x[0], x[i + 1]));
                    lemma_lex_irreflexive(x[0]);
                }
                assert(ys[j - 1] == n);
                assert(ys.contains(n));
            }
            if ys.contains(n) {
                let i = choose|i: int| 0 <= i < ys.len() && ys[i] == n;
                assert(y[i + 1] == n);
                assert(y.contains(n));
                assert(x.contains(n));
                let j = choose|j: int| 0 <= j < x.len() && x[j] == n;
                if j == 0 {
                    assert(lex_lt(y[0], y[i + 1]));
                    lemma_lex_irreflexive(y[0]);
                }
                assert(xs[j - 1] == n);
                assert(xs.contains(n));
            }
        }
        lemma_sorted_names_unique(xs, ys);
        assert forall|i: int| 0 <= i < x.len() implies x[i] == y[i] by {
            if i > 0 {
                assert(xs[i - 1] == ys[i - 1]);
            }
        }
    }
}

/// Law: loading is deterministic. Any two catalogs that stand in the
/// catalog-of relation to the same entry list have the same tabs, with the
/// same names and the same applications in the same order.
pub proof fn lemma_catalog_deterministic(c1: Catalog, c2: Catalog, s: Seq<AppEntry>)
    requires
        is_catalog_of(c1, s),
        is_catalog_of(c2, s),
    ensures
        c1.categories@.len() == c2.categories@.len(),
        forall|i: int|
            0 <= i < c1.categories@.len() ==> (#[trigger] c1.categories@[i]).name@
                == c2.categories@[i].name@,
        forall|i: int|
            0 <= i < c1.categories@.len() ==> (#[trigger] c1.categories@[i]).apps@
                == c2.categories@[i].apps@,
{
    let x = c1.categories@.map_values(|cat: Category| cat.name@);
    let y = c2.categories@.map_values(|cat: Category| cat.name@);
    assert(forall|i: int| 0 <= i < x.len() ==> #[trigger] x[i] == c1.categories@[i].name@);
    assert(forall|i: int| 0 <= i < y.len() ==> #[trigger] y[i] == c2.categories@[i].name@);
    assert forall|n: Seq<char>| x.contains(n) == y.contains(n) by {
        if x.contains(n) {
            let i = choose|i: int| 0 <= i < x.len() && x[i] == n;
            assert(c1.has_category(n));
            assert(c2.has_category(n));
            let j = choose|j: int|
                0 <= j < c2.categories@.len() && (#[trigger] c2.categories@[j]).name@ == n;
            assert(y[j] == n);
            assert(y.contains(n));
        }
        if y.contains(n) {
            let i = choose|i: int| 0 <= i < y.len() && y[i] == n;
            assert(c2.has_category(n));
            assert(c1.has_category(n));
            let j = choose|j: int|
                0 <= j < c1.categories@.len() && (#[trigger] c1.categories@[j]).name@ == n;
            assert(x[j] == n);
            assert(x.contains(n));
        }
    }
    lemma_sorted_names_unique(x, y);
    assert forall|i: int| 0 <= i < c1.categories@.len() implies (
    #[trigger] c1.categories@[i]).name@ == c2.categories@[i].name@ by {
        assert(x[i] == y[i]);
    }
    assert forall|i: int| 0 <= i < c1.categories@.len() implies (
    #[trigger] c1.categories@[i]).apps@ == c2.categories@[i].apps@ by {
        assert(c1.categories@[i].apps@ == entries_with_cat(s, c1.categories@[i].name@));
        assert(c2.categories@[i].apps@ == entries_with_cat(s, c2.categories@[i].name@));
    }
}

} // verus!
