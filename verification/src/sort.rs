//! The order in which a directory listing shows its entries.

use vstd::prelude::*;
use crate::fs::entry::LllDirEntry;
use crate::natural::{is_natural_before, natural_before};
use crate::text::{
    chars_less, chars_of, last_index_of, lemma_lex_asymmetric, lemma_lex_total,
    lemma_lex_transitive, lex_less, lowercase, lowercase_of, rfind_char, same_text, slice_text,
};

verus! {

/// The key by which entries are ordered.
#[derive(Clone, Copy, Debug, PartialEq, Eq, Structural)]
pub enum SortType {
    /// By name, character by character.
    Alphabetic,
    /// By name, digit runs counted by their value.
    Natural,
    /// By size, smallest first.
    Size,
    /// By time of the last change, oldest first.
    Mtime,
    /// By what follows the last `.` of the name.
    Extension,
}

/// How a listing is filtered and ordered.
#[derive(Clone, Copy, Debug)]
pub struct SortOption {
    pub show_hidden: bool,
    pub directories_first: bool,
    pub case_sensitive: bool,
    pub reverse: bool,
    pub sort_method: SortType,
}

/// The method that a configuration names by `name`.
pub open spec fn sort_type_named(name: Seq<char>) -> Option<SortType> {
    if name == "alphabetic"@ {
        Some(SortType::Alphabetic)
    } else if name == "natural"@ {
        Some(SortType::Natural)
    } else if name == "size"@ {
        Some(SortType::Size)
    } else if name == "mtime"@ {
        Some(SortType::Mtime)
    } else if name == "extension"@ {
        Some(SortType::Extension)
    } else {
        None
    }
}

impl SortType {
    /// The method named `s`, if `s` names one.
    pub fn parse(s: &str) -> (r: Option<SortType>)
        ensures
            r == sort_type_named(s@),
    {
        if same_text(s, "alphabetic") {
            Some(SortType::Alphabetic)
        } else if same_text(s, "natural") {
            Some(SortType::Natural)
        } else if same_text(s, "size") {
            Some(SortType::Size)
        } else if same_text(s, "mtime") {
            Some(SortType::Mtime)
        } else if same_text(s, "extension") {
            Some(SortType::Extension)
        } else {
            None
        }
    }
}

impl Default for SortOption {
    fn default() -> (opt: SortOption)
        ensures
            !opt.show_hidden,
            opt.directories_first,
            !opt.case_sensitive,
            !opt.reverse,
            opt.sort_method == SortType::Natural,
    {
        SortOption {
            show_hidden: false,
            directories_first: true,
            case_sensitive: false,
            reverse: false,
            sort_method: SortType::Natural,
        }
    }
}

/// A name is hidden where it begins with a dot.
pub open spec fn is_hidden_name(name: Seq<char>) -> bool {
    name.len() > 0 && name[0] == '.'
}

/// What follows the last `.` of `name`; nothing where it holds none.
pub open spec fn extension_of(name: Seq<char>) -> Seq<char> {
    match last_index_of(name, '.') {
        Some(i) => name.subrange(i + 1, name.len() as int),
        None => Seq::<char>::empty(),
    }
}

/// The text as the comparison sees it: as it is, or in lowercase.
pub open spec fn folded(opt: SortOption, s: Seq<char>) -> Seq<char> {
    if opt.case_sensitive {
        s
    } else {
        lowercase_of(s)
    }
}

/// `a` stands strictly before `b` by the key of the method alone.
pub open spec fn key_before(opt: SortOption, a: LllDirEntry, b: LllDirEntry) -> bool {
    match opt.sort_method {
        SortType::Alphabetic => lex_less(folded(opt, a.name@), folded(opt, b.name@)),
        SortType::Natural => natural_before(folded(opt, a.name@), folded(opt, b.name@)),
        SortType::Size => a.metadata.len < b.metadata.len,
        SortType::Mtime => a.metadata.older_than(b.metadata),
        SortType::Extension => lex_less(
            folded(opt, extension_of(a.name@)),
            folded(opt, extension_of(b.name@)),
        ),
    }
}

/// The order before `reverse` is applied: directories first where that is
/// asked, then the key of the method, then the name as it is written.
pub open spec fn base_before(opt: SortOption, a: LllDirEntry, b: LllDirEntry) -> bool {
    if opt.directories_first && a.metadata.is_dir() != b.metadata.is_dir() {
        a.metadata.is_dir()
    } else if key_before(opt, a, b) {
        true
    } else if key_before(opt, b, a) {
        false
    } else {
        lex_less(a.name@, b.name@)
    }
}

/// `a` is shown strictly before `b`. `reverse` turns the whole order round.
pub open spec fn entry_before(opt: SortOption, a: LllDirEntry, b: LllDirEntry) -> bool {
    if opt.reverse {
        base_before(opt, b, a)
    } else {
        base_before(opt, a, b)
    }
}

/// No entry stands before its predecessor.
pub open spec fn is_sorted(opt: SortOption, s: Seq<LllDirEntry>) -> bool {
    forall|i: int| 0 < i < s.len() ==> !entry_before(opt, #[trigger] s[i], s[i - 1])
}

/// Where `x` goes into the ordered sequence `s`: behind the last entry that
/// it does not stand before.
pub open spec fn insert_pos(opt: SortOption, s: Seq<LllDirEntry>, x: LllDirEntry) -> int
    decreases s.len(),
{
    if s.len() > 0 && entry_before(opt, x, s.last()) {
        insert_pos(opt, s.drop_last(), x)
    } else {
        s.len() as int
    }
}

/// The entries of `s` in the order of `opt`: each in turn is put into the
/// ordered sequence of those before it.
pub open spec fn sort_seq(opt: SortOption, s: Seq<LllDirEntry>) -> Seq<LllDirEntry>
    decreases s.len(),
{
    if s.len() == 0 {
        s
    } else {
        let sorted = sort_seq(opt, s.drop_last());
        sorted.insert(insert_pos(opt, sorted, s.last()), s.last())
    }
}

/// The key of the method never puts two entries before each other.
pub proof fn lemma_key_asymmetric(opt: SortOption, a: LllDirEntry, b: LllDirEntry)
    ensures
        !(key_before(opt, a, b) && key_before(opt, b, a)),
{
    lemma_lex_asymmetric(folded(opt, a.name@), folded(opt, b.name@));
    lemma_lex_asymmetric(folded(opt, extension_of(a.name@)), folded(opt, extension_of(b.name@)));
}

/// Of two entries at most one is shown before the other.
pub proof fn lemma_entry_order_asymmetric(opt: SortOption, a: LllDirEntry, b: LllDirEntry)
    ensures
        !(entry_before(opt, a, b) && entry_before(opt, b, a)),
{
    lemma_key_asymmetric(opt, a, b);
    lemma_lex_asymmetric(a.name@, b.name@);
}

/// Under a fixed option, of two entries with different names exactly one is
/// shown before the other.
pub proof fn lemma_entry_order_total(opt: SortOption, a: LllDirEntry, b: LllDirEntry)
    requires
        a.name@ != b.name@,
    ensures
        entry_before(opt, a, b) != entry_before(opt, b, a),
{
    lemma_key_asymmetric(opt, a, b);
    lemma_lex_asymmetric(a.name@, b.name@);
    lemma_lex_total(a.name@, b.name@);
}

/// The key of a method other than the natural one orders like a ranking:
/// an entry that stands before another stands before a third, or the third
/// stands before the other.
pub proof fn lemma_key_ranks(opt: SortOption, a: LllDirEntry, b: LllDirEntry, c: LllDirEntry)
    requires
        opt.sort_method != SortType::Natural,
        key_before(opt, c, a),
    ensures
        key_before(opt, b, a) || key_before(opt, c, b),
{
    let (x, y, z) = match opt.sort_method {
        SortType::Extension => (
            folded(opt, extension_of(a.name@)),
            folded(opt, extension_of(b.name@)),
            folded(opt, extension_of(c.name@)),
        ),
        _ => (folded(opt, a.name@), folded(opt, b.name@), folded(opt, c.name@)),
    };
    if y != x && y != z {
        lemma_lex_total(y, x);
        lemma_lex_total(z, y);
        if lex_less(x, y) && lex_less(y, z) {
            lemma_lex_transitive(x, y, z);
            lemma_lex_asymmetric(x, z);
        }
    }
}

/// Under a method other than the natural one the whole order is a ranking
/// too.
pub proof fn lemma_order_ranks(opt: SortOption, a: LllDirEntry, b: LllDirEntry, c: LllDirEntry)
    requires
        opt.sort_method != SortType::Natural,
        entry_before(opt, c, a),
    ensures
        entry_before(opt, b, a) || entry_before(opt, c, b),
{
    let (lo, hi) = if opt.reverse {
        (a, c)
    } else {
        (c, a)
    };
    lemma_key_asymmetric(opt, lo, hi);
    lemma_key_asymmetric(opt, lo, b);
    lemma_key_asymmetric(opt, b, hi);
    if key_before(opt, lo, hi) {
        lemma_key_ranks(opt, hi, b, lo);
    }
    if key_before(opt, b, lo) {
        lemma_key_ranks(opt, lo, hi, b);
    }
    if key_before(opt, hi, b) {
        lemma_key_ranks(opt, b, lo, hi);
    }
    if b.name@ != lo.name@ && b.name@ != hi.name@ {
        lemma_lex_total(b.name@, lo.name@);
        lemma_lex_total(hi.name@, b.name@);
        if lex_less(lo.name@, b.name@) && lex_less(b.name@, hi.name@) {
            lemma_lex_transitive(lo.name@, b.name@, hi.name@);
        }
        if lex_less(hi.name@, b.name@) && lex_less(b.name@, lo.name@) {
            lemma_lex_transitive(hi.name@, b.name@, lo.name@);
            lemma_lex_asymmetric(lo.name@, hi.name@);
        }
    }
}

/// In a sequence that is ordered under a method other than the natural
/// one, no entry stands before any that precedes it.
pub proof fn lemma_sorted_pairwise(opt: SortOption, s: Seq<LllDirEntry>, i: int, j: int)
    requires
        opt.sort_method != SortType::Natural,
        is_sorted(opt, s),
        0 <= i < j < s.len(),
    ensures
        !entry_before(opt, s[j], s[i]),
    decreases j - i,
{
    if i + 1 < j {
        lemma_sorted_pairwise(opt, s, i, j - 1);
        assert(!entry_before(opt, s[j], s[j - 1]));
        if entry_before(opt, s[j], s[i]) {
            lemma_order_ranks(opt, s[i], s[j - 1], s[j]);
        }
    }
}

/// The place that `insert_pos` gives lies in the sequence, what follows it
/// stands after `x`, and what precedes it does not.
pub proof fn lemma_insert_pos(opt: SortOption, s: Seq<LllDirEntry>, x: LllDirEntry)
    ensures
        0 <= insert_pos(opt, s, x) <= s.len(),
        forall|k: int| insert_pos(opt, s, x) <= k < s.len()
            ==> entry_before(opt, x, #[trigger] s[k]),
        insert_pos(opt, s, x) > 0 ==> !entry_before(opt, x, s[insert_pos(opt, s, x) - 1]),
    decreases s.len(),
{
    if s.len() > 0 && entry_before(opt, x, s.last()) {
        let t = s.drop_last();
        lemma_insert_pos(opt, t, x);
        assert(forall|k: int| 0 <= k < t.len() ==> s[k] == t[k]);
    }
}

/// Putting an entry at its place keeps an ordered sequence ordered.
pub proof fn lemma_insert_keeps_sorted(opt: SortOption, s: Seq<LllDirEntry>, x: LllDirEntry)
    requires
        is_sorted(opt, s),
    ensures
        is_sorted(opt, s.insert(insert_pos(opt, s, x), x)),
{
    lemma_insert_pos(opt, s, x);
    let p = insert_pos(opt, s, x);
    let t = s.insert(p, x);
    assert forall|i: int| 0 < i < t.len() implies !entry_before(opt, #[trigger] t[i], t[i - 1]) by {
        if i < p {
            assert(t[i] == s[i] && t[i - 1] == s[i - 1]);
        } else if i == p {
            assert(t[i] == x && t[i - 1] == s[p - 1]);
        } else if i == p + 1 {
            assert(t[i] == s[p] && t[i - 1] == x);
            lemma_entry_order_asymmetric(opt, x, s[p]);
        } else {
            assert(t[i] == s[i - 1] && t[i - 1] == s[i - 2]);
        }
    }
}

/// What `sort_seq` gives is ordered.
pub proof fn lemma_sort_sorted(opt: SortOption, s: Seq<LllDirEntry>)
    ensures
        is_sorted(opt, sort_seq(opt, s)),
    decreases s.len(),
{
    if s.len() > 0 {
        lemma_sort_sorted(opt, s.drop_last());
        lemma_insert_keeps_sorted(opt, sort_seq(opt, s.drop_last()), s.last());
    }
}

/// What `sort_seq` gives holds the same entries, each as often as before.
pub proof fn lemma_sort_permutes(opt: SortOption, s: Seq<LllDirEntry>)
    ensures
        sort_seq(opt, s).len() == s.len(),
        sort_seq(opt, s).to_multiset() == s.to_multiset(),
    decreases s.len(),
{
    broadcast use vstd::seq_lib::group_to_multiset_ensures;

    if s.len() > 0 {
        let init = s.drop_last();
        let sorted = sort_seq(opt, init);
        lemma_sort_permutes(opt, init);
        lemma_insert_pos(opt, sorted, s.last());
        assert(s =~= init.push(s.last()));
    } else {
        assert(sort_seq(opt, s) =~= s);
    }
}

/// Ordering an ordered sequence changes nothing.
pub proof fn lemma_sort_fixes_sorted(opt: SortOption, s: Seq<LllDirEntry>)
    requires
        is_sorted(opt, s),
    ensures
        sort_seq(opt, s) == s,
    decreases s.len(),
{
    if s.len() > 0 {
        let init = s.drop_last();
        assert forall|i: int| 0 < i < init.len() implies !entry_before(
            opt,
            #[trigger] init[i],
            init[i - 1],
        ) by {
            assert(init[i] == s[i] && init[i - 1] == s[i - 1]);
        }
        lemma_sort_fixes_sorted(opt, init);
        if init.len() > 0 {
            assert(init.last() == s[s.len() - 2]);
            assert(!entry_before(opt, s[s.len() - 1], s[s.len() - 2]));
        }
        assert(insert_pos(opt, init, s.last()) == init.len());
        assert(init.insert(init.len() as int, s.last()) =~= s);
    }
}

/// Ordering twice gives what ordering once gives.
pub proof fn lemma_sort_idempotent(opt: SortOption, s: Seq<LllDirEntry>)
    ensures
        sort_seq(opt, sort_seq(opt, s)) == sort_seq(opt, s),
{
    lemma_sort_sorted(opt, s);
    lemma_sort_fixes_sorted(opt, sort_seq(opt, s));
}

/// The text as the comparison sees it.
fn fold_text(opt: &SortOption, s: &str) -> (out: String)
    ensures
        out@ == folded(*opt, s@),
{
    if opt.case_sensitive {
        s.to_owned()
    } else {
        lowercase(s)
    }
}

/// What follows the last `.` of `name`.
pub fn extension(name: &str) -> (out: String)
    ensures
        out@ == extension_of(name@),
{
    let chars = chars_of(name);
    match rfind_char(&chars, '.') {
        Some(i) => slice_text(name, i + 1, chars.len()),
        None => String::new(),
    }
}

/// Whether a name begins with a dot.
pub fn is_hidden(name: &str) -> (r: bool)
    ensures
        r == is_hidden_name(name@),
{
    let chars = chars_of(name);
    chars.len() > 0 && chars[0] == '.'
}

/// Whether `a` stands before `b` by the key of the method alone.
fn is_key_before(opt: &SortOption, a: &LllDirEntry, b: &LllDirEntry) -> (r: bool)
    ensures
        r == key_before(*opt, *a, *b),
{
    match opt.sort_method {
        SortType::Alphabetic => {
            let x = chars_of(fold_text(opt, a.file_name()).as_str());
            let y = chars_of(fold_text(opt, b.file_name()).as_str());
            chars_less(&x, &y)
        },
        SortType::Natural => {
            let x = fold_text(opt, a.file_name());
            let y = fold_text(opt, b.file_name());
            is_natural_before(x.as_str(), y.as_str())
        },
        SortType::Size => a.metadata.len < b.metadata.len,
        SortType::Mtime => a.metadata.is_older_than(&b.metadata),
        SortType::Extension => {
            let x = chars_of(fold_text(opt, extension(a.file_name()).as_str()).as_str());
            let y = chars_of(fold_text(opt, extension(b.file_name()).as_str()).as_str());
            chars_less(&x, &y)
        },
    }
}

fn is_base_before(opt: &SortOption, a: &LllDirEntry, b: &LllDirEntry) -> (r: bool)
    ensures
        r == base_before(*opt, *a, *b),
{
    let a_dir = a.metadata.is_directory();
    let b_dir = b.metadata.is_directory();
    if opt.directories_first && a_dir != b_dir {
        a_dir
    } else if is_key_before(opt, a, b) {
        true
    } else if is_key_before(opt, b, a) {
        false
    } else {
        let x = chars_of(a.file_name());
        let y = chars_of(b.file_name());
        chars_less(&x, &y)
    }
}

/// Whether `a` is shown strictly before `b` under `opt`.
pub fn is_entry_before(opt: &SortOption, a: &LllDirEntry, b: &LllDirEntry) -> (r: bool)
    ensures
        r == entry_before(*opt, *a, *b),
{
    if opt.reverse {
        is_base_before(opt, b, a)
    } else {
        is_base_before(opt, a, b)
    }
}

/// The entries in the order of `opt`.
pub fn sort_entries(opt: &SortOption, entries: Vec<LllDirEntry>) -> (out: Vec<LllDirEntry>)
    ensures
        out@ == sort_seq(*opt, entries@),
        out.len() == entries.len(),
        out@.to_multiset() == entries@.to_multiset(),
        is_sorted(*opt, out@),
{
    let ghost all = entries@;
    let mut out: Vec<LllDirEntry> = Vec::new();
    let mut rest = entries;
    let total: usize = rest.len();
    let mut taken: usize = 0;
    assert(all.subrange(0, 0) =~= Seq::<LllDirEntry>::empty());
    while rest.len() > 0
        invariant
            all.len() == total,
            taken + rest.len() == all.len(),
            rest@ == all.subrange(taken as int, all.len() as int),
            out@ == sort_seq(*opt, all.subrange(0, taken as int)),
        decreases rest.len(),
    {
        let x = rest.remove(0);
        proof {
            lemma_sort_permutes(*opt, all.subrange(0, taken as int));
            lemma_insert_pos(*opt, out@, x);
        }
        let ghost target = insert_pos(*opt, out@, x);
        let mut at: usize = out.len();
        assert(out@.subrange(0, at as int) =~= out@);
        while at > 0 && is_entry_before(opt, &x, &out[at - 1])
            invariant
                at <= out.len(),
                insert_pos(*opt, out@, x) == insert_pos(*opt, out@.subrange(0, at as int), x),
            decreases at,
        {
            proof {
                let head = out@.subrange(0, at as int);
                assert(head.last() == out@[at - 1]);
                assert(head.drop_last() =~= out@.subrange(0, at - 1));
            }
            at -= 1;
        }
        proof {
            let head = out@.subrange(0, at as int);
            if at > 0 {
                assert(head.last() == out@[at - 1]);
            }
            assert(insert_pos(*opt, head, x) == at);
            let prefix = all.subrange(0, taken + 1);
            assert(prefix.last() == x);
            assert(prefix.drop_last() =~= all.subrange(0, taken as int));
        }
        out.insert(at, x);
        taken += 1;
    }
    proof {
        assert(all.subrange(0, taken as int) =~= all);
        lemma_sort_permutes(*opt, all);
        lemma_sort_sorted(*opt, all);
    }
    out
}

} // verus!
