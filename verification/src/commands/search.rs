//! Looking for an entry by a part of its name.

use vstd::prelude::*;
use vstd::string::StringExecFns;
use crate::commands::cursor_move::{cursor_move, cursor_moved};
use crate::context::LllContext;
use crate::error::LllError;
use crate::fs::LllDirEntry;
use crate::tab::LllTab;
use crate::text::{chars_contain, chars_of, is_substring, lowercase, lowercase_of};
use crate::window::LllView;

verus! {

/// The name of the entry, in lowercase, holds `pattern`.
pub open spec fn name_matches(e: LllDirEntry, pattern: Seq<char>) -> bool {
    is_substring(pattern, lowercase_of(e.name@))
}

/// No entry but the one at `c` matches.
pub open spec fn no_match(contents: Seq<LllDirEntry>, pattern: Seq<char>, c: int) -> bool {
    forall|i: int|
        0 <= i < contents.len() && i != c ==> !name_matches(#[trigger] contents[i], pattern)
}

/// The position that a forward scan from the cursor `c` looks at in its
/// step `k`: `c + 1 + k`, counted round the `len` entries. The scan has
/// `len - 1` steps: it looks at every entry but the one under the cursor.
pub open spec fn forward_pos(c: int, k: int, len: int) -> int {
    if c + 1 + k < len {
        c + 1 + k
    } else {
        c + 1 + k - len
    }
}

/// The position that a backward scan from the cursor `c` looks at in its
/// step `k`: `c - 1 - k`, counted round the `len` entries. The scan has
/// `len - 1` steps: it looks at the entries that the forward scan looks
/// at, in the opposite order.
pub open spec fn backward_pos(c: int, k: int, len: int) -> int {
    if k < c {
        c - 1 - k
    } else {
        c - 1 - k + len
    }
}

/// Step `k` of the forward scan from `c` is the first that finds a match.
pub open spec fn forward_hit_at(contents: Seq<LllDirEntry>, pattern: Seq<char>, c: int, k: int) -> bool {
    &&& 0 <= k < contents.len() - 1
    &&& name_matches(contents[forward_pos(c, k, contents.len() as int)], pattern)
    &&& forall|j: int|
        0 <= j < k ==> !name_matches(
            contents[#[trigger] forward_pos(c, j, contents.len() as int)],
            pattern,
        )
}

/// Step `k` of the backward scan from `c` is the first that finds a match.
pub open spec fn backward_hit_at(contents: Seq<LllDirEntry>, pattern: Seq<char>, c: int, k: int) -> bool {
    &&& 0 <= k < contents.len() - 1
    &&& name_matches(contents[backward_pos(c, k, contents.len() as int)], pattern)
    &&& forall|j: int|
        0 <= j < k ==> !name_matches(
            contents[#[trigger] backward_pos(c, j, contents.len() as int)],
            pattern,
        )
}

/// The forward scan from `c` ends on the entry at `at`.
pub open spec fn finds_forward(contents: Seq<LllDirEntry>, pattern: Seq<char>, c: int, at: int) -> bool {
    exists|k: int| #[trigger]
        forward_hit_at(contents, pattern, c, k) && at == forward_pos(c, k, contents.len() as int)
}

/// The backward scan from `c` ends on the entry at `at`.
pub open spec fn finds_backward(contents: Seq<LllDirEntry>, pattern: Seq<char>, c: int, at: int) -> bool {
    exists|k: int| #[trigger]
        backward_hit_at(contents, pattern, c, k) && at == backward_pos(c, k, contents.len() as int)
}

/// A scan ends on one entry at most.
pub proof fn lemma_hit_unique(contents: Seq<LllDirEntry>, pattern: Seq<char>, c: int, a: int, b: int)
    ensures
        finds_forward(contents, pattern, c, a) && finds_forward(contents, pattern, c, b) ==> a == b,
        finds_backward(contents, pattern, c, a) && finds_backward(contents, pattern, c, b) ==> a
            == b,
{
    let len = contents.len() as int;
    if finds_forward(contents, pattern, c, a) && finds_forward(contents, pattern, c, b) {
        let k1 = choose|k: int| #[trigger]
            forward_hit_at(contents, pattern, c, k) && a == forward_pos(c, k, len);
        let k2 = choose|k: int| #[trigger]
            forward_hit_at(contents, pattern, c, k) && b == forward_pos(c, k, len);
        if k1 < k2 {
            assert(!name_matches(contents[forward_pos(c, k1, len)], pattern));
        }
        if k2 < k1 {
            assert(!name_matches(contents[forward_pos(c, k2, len)], pattern));
        }
    }
    if finds_backward(contents, pattern, c, a) && finds_backward(contents, pattern, c, b) {
        let k1 = choose|k: int| #[trigger]
            backward_hit_at(contents, pattern, c, k) && a == backward_pos(c, k, len);
        let k2 = choose|k: int| #[trigger]
            backward_hit_at(contents, pattern, c, k) && b == backward_pos(c, k, len);
        if k1 < k2 {
            assert(!name_matches(contents[backward_pos(c, k1, len)], pattern));
        }
        if k2 < k1 {
            assert(!name_matches(contents[backward_pos(c, k2, len)], pattern));
        }
    }
}

/// Searching on and searching back undo each other: where the entry under
/// the cursor `c` matches and the forward scan from it ends on `next`, the
/// backward scan from `next` ends on `c`, and on nothing else.
pub proof fn lemma_search_back_undoes_search(
    contents: Seq<LllDirEntry>,
    pattern: Seq<char>,
    c: int,
    next: int,
)
    requires
        0 <= c < contents.len(),
        name_matches(contents[c], pattern),
        finds_forward(contents, pattern, c, next),
    ensures
        finds_backward(contents, pattern, next, c),
        forall|at: int| finds_backward(contents, pattern, next, at) ==> at == c,
{
    let len = contents.len() as int;
    let k = choose|k: int| #[trigger]
        forward_hit_at(contents, pattern, c, k) && next == forward_pos(c, k, len);
    assert(backward_pos(next, k, len) == c);
    assert forall|j: int| 0 <= j < k implies !name_matches(
        contents[#[trigger] backward_pos(next, j, len)],
        pattern,
    ) by {
        assert(backward_pos(next, j, len) == forward_pos(c, k - 1 - j, len));
    }
    assert(backward_hit_at(contents, pattern, next, k));
    assert forall|at: int| finds_backward(contents, pattern, next, at) implies at == c by {
        lemma_hit_unique(contents, pattern, next, at, c);
    }
}

/// Searching back and searching on undo each other in the same way.
pub proof fn lemma_search_undoes_search_back(
    contents: Seq<LllDirEntry>,
    pattern: Seq<char>,
    c: int,
    prev: int,
)
    requires
        0 <= c < contents.len(),
        name_matches(contents[c], pattern),
        finds_backward(contents, pattern, c, prev),
    ensures
        finds_forward(contents, pattern, prev, c),
        forall|at: int| finds_forward(contents, pattern, prev, at) ==> at == c,
{
    let len = contents.len() as int;
    let k = choose|k: int| #[trigger]
        backward_hit_at(contents, pattern, c, k) && prev == backward_pos(c, k, len);
    assert(forward_pos(prev, k, len) == c);
    assert forall|j: int| 0 <= j < k implies !name_matches(
        contents[#[trigger] forward_pos(prev, j, len)],
        pattern,
    ) by {
        assert(forward_pos(prev, j, len) == backward_pos(c, k - 1 - j, len));
    }
    assert(forward_hit_at(contents, pattern, prev, k));
    assert forall|at: int| finds_forward(contents, pattern, prev, at) implies at == c by {
        lemma_hit_unique(contents, pattern, prev, at, c);
    }
}

/// Whether the name of the entry, in lowercase, holds `pattern`.
fn entry_matches(e: &LllDirEntry, pattern: &Vec<char>) -> (r: bool)
    ensures
        r == name_matches(*e, pattern@),
{
    let name = chars_of(lowercase(e.file_name()).as_str());
    chars_contain(&name, pattern)
}

/// Which way a repeated search goes.
#[derive(Clone, Copy, Debug, PartialEq, Eq, Structural)]
pub enum SearchDirection {
    Forward,
    Backward,
}

#[derive(Clone, Debug)]
pub struct Search {
    pub pattern: String,
}

impl Search {
    /// A search for `pattern`, which is taken in lowercase.
    pub fn new(pattern: &str) -> (command: Search)
        ensures
            command.pattern@ == lowercase_of(pattern@),
    {
        Search { pattern: lowercase(pattern) }
    }

    pub fn command() -> (name: &'static str)
        ensures
            name@ == "search"@,
    {
        "search"
    }

    /// The command as a text: its name and the pattern.
    pub fn to_string(&self) -> (text: String)
        ensures
            text@ == "search"@ + " "@ + self.pattern@,
    {
        let mut text = Search::command().to_owned();
        text.append(" ");
        text.append(self.pattern.as_str());
        text
    }

    /// The index of the first entry behind the cursor whose name, in
    /// lowercase, holds `pattern`. The scan goes round the listing and
    /// stops before it comes back to the cursor: the entry under the cursor
    /// is never found. Nothing is found where no other entry matches, or
    /// where the listing has no cursor.
    pub fn search(curr_tab: &LllTab, pattern: &str) -> (r: Option<usize>)
        requires
            curr_tab.curr_list.wf(),
        ensures
            r is None <==> curr_tab.curr_list.index is None || no_match(
                curr_tab.curr_list.contents@,
                pattern@,
                curr_tab.curr_list.index->0 as int,
            ),
            r matches Some(at) ==> at < curr_tab.curr_list.contents@.len() && Some(at)
                != curr_tab.curr_list.index && finds_forward(
                curr_tab.curr_list.contents@,
                pattern@,
                curr_tab.curr_list.index->0 as int,
                at as int,
            ),
    {
        let curr_list = &curr_tab.curr_list;
        let pattern_chars = chars_of(pattern);
        match curr_list.index {
            Some(index) => {
                let contents_len = curr_list.contents.len();
                let ghost contents = curr_list.contents@;
                let mut i: usize = 0;
                while i + 1 < contents_len
                    invariant
                        i + 1 <= contents_len,
                        index < contents_len,
                        contents_len == contents.len(),
                        contents == curr_list.contents@,
                        *curr_list == curr_tab.curr_list,
                        curr_list.index == Some(index),
                        pattern_chars@ == pattern@,
                        forall|j: int|
                            0 <= j < i ==> !name_matches(
                                contents[#[trigger] forward_pos(
                                    index as int,
                                    j,
                                    contents_len as int,
                                )],
                                pattern@,
                            ),
                    decreases contents_len - i,
                {
                    let at: usize = if i < contents_len - 1 - index {
                        index + 1 + i
                    } else {
                        i - (contents_len - 1 - index)
                    };
                    assert(at == forward_pos(index as int, i as int, contents_len as int));
                    if entry_matches(&curr_list.contents[at], &pattern_chars) {
                        assert(forward_hit_at(contents, pattern@, index as int, i as int));
                        return Some(at);
                    }
                    i += 1;
                }
                proof {
                    assert forall|p: int| 0 <= p < contents.len() && p != index
                        implies !name_matches(
                        #[trigger] contents[p],
                        pattern@,
                    ) by {
                        let k = if p > index {
                            p - index - 1
                        } else {
                            p - index - 1 + contents_len
                        };
                        assert(forward_pos(index as int, k, contents_len as int) == p);
                    }
                }
                None
            },
            None => None,
        }
    }

    /// The index of the first entry before the cursor whose name, in
    /// lowercase, holds `pattern`. The scan goes round the listing the
    /// other way, over the same entries.
    pub fn search_rev(curr_tab: &LllTab, pattern: &str) -> (r: Option<usize>)
        requires
            curr_tab.curr_list.wf(),
        ensures
            r is None <==> curr_tab.curr_list.index is None || no_match(
                curr_tab.curr_list.contents@,
                pattern@,
                curr_tab.curr_list.index->0 as int,
            ),
            r matches Some(at) ==> at < curr_tab.curr_list.contents@.len() && Some(at)
                != curr_tab.curr_list.index && finds_backward(
                curr_tab.curr_list.contents@,
                pattern@,
                curr_tab.curr_list.index->0 as int,
                at as int,
            ),
    {
        let curr_list = &curr_tab.curr_list;
        let pattern_chars = chars_of(pattern);
        match curr_list.index {
            Some(index) => {
                let contents_len = curr_list.contents.len();
                let ghost contents = curr_list.contents@;
                let mut i: usize = 0;
                while i + 1 < contents_len
                    invariant
                        i + 1 <= contents_len,
                        index < contents_len,
                        contents_len == contents.len(),
                        contents == curr_list.contents@,
                        *curr_list == curr_tab.curr_list,
                        curr_list.index == Some(index),
                        pattern_chars@ == pattern@,
                        forall|j: int|
                            0 <= j < i ==> !name_matches(
                                contents[#[trigger] backward_pos(
                                    index as int,
                                    j,
                                    contents_len as int,
                                )],
                                pattern@,
                            ),
                    decreases contents_len - i,
                {
                    let at: usize = if i < index {
                        index - 1 - i
                    } else {
                        contents_len - 1 - (i - index)
                    };
                    assert(at == backward_pos(index as int, i as int, contents_len as int));
                    if entry_matches(&curr_list.contents[at], &pattern_chars) {
                        assert(backward_hit_at(contents, pattern@, index as int, i as int));
                        return Some(at);
                    }
                    i += 1;
                }
                proof {
                    assert forall|p: int| 0 <= p < contents.len() && p != index
                        implies !name_matches(
                        #[trigger] contents[p],
                        pattern@,
                    ) by {
                        let k = if p < index {
                            index - 1 - p
                        } else {
                            index - 1 - p + contents_len
                        };
                        assert(backward_pos(index as int, k, contents_len as int) == p);
                    }
                }
                None
            },
            None => None,
        }
    }

    /// `after` is what running the command makes of `before`.
    pub open spec fn runs(self, before: LllContext, after: LllContext, view: LllView) -> bool {
        &&& after.search_pattern matches Some(p) && p@ == self.pattern@
        &&& searched(before, after, self.pattern@, SearchDirection::Forward, view)
    }

    /// Moves the cursor to what the forward search for the pattern finds,
    /// and keeps the pattern for the searches that repeat it.
    pub fn execute(&self, context: &mut LllContext, view: &LllView) -> (r: Result<(), LllError>)
        requires
            old(context).wf(),
        ensures
            r is Ok,
            final(context).wf(),
            self.runs(*old(context), *final(context), *view),
    {
        let index = Search::search(&context.tabs[context.curr_tab_index], self.pattern.as_str());
        let ghost before = *context;
        context.search_pattern = Some(self.pattern.clone());
        let ghost mid = *context;
        if let Some(index) = index {
            cursor_move(index, context, view);
            proof {
                let list = before.curr_tab().curr_list;
                assert(finds(
                    list.contents@,
                    self.pattern@,
                    list.index->0 as int,
                    index as int,
                    SearchDirection::Forward,
                ));
                assert(mid == (LllContext { search_pattern: context.search_pattern, ..before }));
            }
        }
        Ok(())
    }
}

/// The scan from `c` in the given direction ends on the entry at `at`.
pub open spec fn finds(
    contents: Seq<LllDirEntry>,
    pattern: Seq<char>,
    c: int,
    at: int,
    direction: SearchDirection,
) -> bool {
    match direction {
        SearchDirection::Forward => finds_forward(contents, pattern, c, at),
        SearchDirection::Backward => finds_backward(contents, pattern, c, at),
    }
}

/// `after` is `before` with the cursor moved to what the scan for `pattern`
/// in the given direction finds: nothing but the remembered pattern differs
/// where it finds nothing.
pub open spec fn searched(
    before: LllContext,
    after: LllContext,
    pattern: Seq<char>,
    direction: SearchDirection,
    view: LllView,
) -> bool {
    let list = before.curr_tab().curr_list;
    let start = LllContext { search_pattern: after.search_pattern, ..before };
    if list.index is None || no_match(list.contents@, pattern, list.index->0 as int) {
        after == start
    } else {
        exists|at: int| #[trigger]
            finds(list.contents@, pattern, list.index->0 as int, at, direction) && cursor_moved(
                start,
                after,
                at,
                view,
            )
    }
}

/// `after` is `before` after the last search was repeated in the given
/// direction: as it was where there is no last search.
pub open spec fn search_repeated(
    before: LllContext,
    after: LllContext,
    direction: SearchDirection,
    view: LllView,
) -> bool {
    &&& after.search_pattern == before.search_pattern
    &&& match before.search_pattern {
        Some(p) => searched(before, after, p@, direction, view),
        None => after == before,
    }
}

/// Repeats the last search in the given direction. Without a last search
/// nothing happens.
pub fn search_with_func(context: &mut LllContext, view: &LllView, direction: SearchDirection)
    requires
        old(context).wf(),
    ensures
        final(context).wf(),
        search_repeated(*old(context), *final(context), direction, *view),
{
    let pattern = match &context.search_pattern {
        Some(s) => s.clone(),
        None => {
            return ;
        },
    };
    let index = match direction {
        SearchDirection::Forward => Search::search(
            &context.tabs[context.curr_tab_index],
            pattern.as_str(),
        ),
        SearchDirection::Backward => Search::search_rev(
            &context.tabs[context.curr_tab_index],
            pattern.as_str(),
        ),
    };
    let ghost before = *context;
    if let Some(index) = index {
        cursor_move(index, context, view);
        proof {
            let list = before.curr_tab().curr_list;
            assert(finds(
                list.contents@,
                pattern@,
                list.index->0 as int,
                index as int,
                direction,
            ));
            assert(before == (LllContext { search_pattern: context.search_pattern, ..before }));
        }
    }
}

#[derive(Clone, Copy, Debug)]
pub struct SearchNext;

impl SearchNext {
    pub fn new() -> SearchNext {
        SearchNext
    }

    pub fn command() -> (name: &'static str)
        ensures
            name@ == "search_next"@,
    {
        "search_next"
    }

    /// The command as a text: its name.
    pub fn to_string(&self) -> (text: String)
        ensures
            text@ == "search_next"@,
    {
        SearchNext::command().to_owned()
    }

    /// Repeats the last search forward.
    pub fn execute(&self, context: &mut LllContext, view: &LllView) -> (r: Result<(), LllError>)
        requires
            old(context).wf(),
        ensures
            r is Ok,
            final(context).wf(),
            search_repeated(*old(context), *final(context), SearchDirection::Forward, *view),
    {
        search_with_func(context, view, SearchDirection::Forward);
        Ok(())
    }
}

#[derive(Clone, Copy, Debug)]
pub struct SearchPrev;

impl SearchPrev {
    pub fn new() -> SearchPrev {
        SearchPrev
    }

    pub fn command() -> (name: &'static str)
        ensures
            name@ == "search_prev"@,
    {
        "search_prev"
    }

    /// The command as a text: its name.
    pub fn to_string(&self) -> (text: String)
        ensures
            text@ == "search_prev"@,
    {
        SearchPrev::command().to_owned()
    }

    /// Repeats the last search backward.
    pub fn execute(&self, context: &mut LllContext, view: &LllView) -> (r: Result<(), LllError>)
        requires
            old(context).wf(),
        ensures
            r is Ok,
            final(context).wf(),
            search_repeated(*old(context), *final(context), SearchDirection::Backward, *view),
    {
        search_with_func(context, view, SearchDirection::Backward);
        Ok(())
    }
}

} // verus!
