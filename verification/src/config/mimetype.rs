//! The programs that open files.

use vstd::prelude::*;
use vstd::string::StringExecFns;
use std::collections::HashMap;
use crate::config::table::StringTable;

verus! {

broadcast use vstd::std_specs::hash::group_hash_axioms;

pub fn default_false() -> (r: bool)
    ensures
        !r,
{
    false
}

/// A program that opens files, under a number.
#[derive(Debug)]
pub struct LllMimetypeEntry {
    pub id: usize,
    pub program: String,
    pub args: Option<Vec<String>>,
    pub fork: bool,
    pub silent: bool,
}

/// The arguments, each behind a blank.
pub open spec fn args_text(args: Seq<String>) -> Seq<char>
    decreases args.len(),
{
    if args.len() == 0 {
        Seq::<char>::empty()
    } else {
        args_text(args.drop_last()) + " "@ + args.last()@
    }
}

/// The line that shows an entry: the program, its arguments, and its
/// flags in brackets behind a tab.
pub open spec fn entry_text(entry: LllMimetypeEntry) -> Seq<char> {
    entry.program@ + (match entry.args {
        Some(args) => args_text(args@),
        None => Seq::<char>::empty(),
    }) + "\t["@ + (if entry.fork {
        "fork,"@
    } else {
        Seq::<char>::empty()
    }) + (if entry.silent {
        "silent"@
    } else {
        Seq::<char>::empty()
    }) + "]"@
}

impl LllMimetypeEntry {
    /// The line that shows the entry.
    pub fn to_string(&self) -> (text: String)
        ensures
            text@ == entry_text(*self),
    {
        let mut text = self.program.clone();
        if let Some(args) = &self.args {
            let mut i: usize = 0;
            assert(args@.subrange(0, 0) =~= Seq::<String>::empty());
            while i < args.len()
                invariant
                    i <= args.len(),
                    text@ == self.program@ + args_text(args@.subrange(0, i as int)),
                decreases args.len() - i,
            {
                proof {
                    let next = args@.subrange(0, i + 1);
                    assert(next.last() == args@[i as int]);
                    assert(next.drop_last() =~= args@.subrange(0, i as int));
                }
                text.append(" ");
                text.append(args[i].as_str());
                assert(text@ =~= self.program@ + args_text(args@.subrange(0, i + 1)));
                i += 1;
            }
            assert(args@.subrange(0, i as int) =~= args@);
        } else {
            assert(text@ =~= self.program@ + Seq::<char>::empty());
        }
        text.append("\t[");
        if self.fork {
            text.append("fork,");
        } else {
            assert(text@ =~= text@ + Seq::<char>::empty());
        }
        if self.silent {
            text.append("silent");
        } else {
            assert(text@ =~= text@ + Seq::<char>::empty());
        }
        text.append("]");
        text
    }
}

/// The tables as the configuration file gives them.
#[derive(Debug)]
pub struct LllRawMimetype {
    pub entry: Vec<LllMimetypeEntry>,
    pub extension: StringTable<Vec<usize>>,
    pub mimetype: StringTable<Vec<usize>>,
}

/// The programs by their numbers, and the numbers of the programs for an
/// extension and for a mimetype.
#[derive(Debug)]
pub struct LllMimetype {
    pub entries: HashMap<usize, LllMimetypeEntry>,
    pub extension: StringTable<Vec<usize>>,
    pub mimetype: StringTable<Vec<usize>>,
}

/// The programs by their numbers. Where a number stands twice among the
/// programs the later one counts.
pub open spec fn by_number(entry: Seq<LllMimetypeEntry>) -> Map<usize, LllMimetypeEntry>
    decreases entry.len(),
{
    if entry.len() == 0 {
        Map::empty()
    } else {
        by_number(entry.drop_last()).insert(entry.last().id, entry.last())
    }
}

/// The programs under the numbers `ids`, in the order of the numbers; a
/// number without a program is passed over.
pub open spec fn entries_for(entries: Map<usize, LllMimetypeEntry>, ids: Seq<usize>) -> Seq<
    LllMimetypeEntry,
>
    decreases ids.len(),
{
    if ids.len() == 0 {
        Seq::<LllMimetypeEntry>::empty()
    } else if entries.contains_key(ids.last()) {
        entries_for(entries, ids.drop_last()).push(entries[ids.last()])
    } else {
        entries_for(entries, ids.drop_last())
    }
}

impl LllRawMimetype {
    /// The tables of the file, the programs put under their numbers.
    pub fn flatten(self) -> (mimetype: LllMimetype)
        ensures
            mimetype.entries@ == by_number(self.entry@),
            mimetype.extension == self.extension,
            mimetype.mimetype == self.mimetype,
    {
        let ghost all = self.entry@;
        let mut entries: HashMap<usize, LllMimetypeEntry> = HashMap::new();
        let mut rest = self.entry;
        let total = rest.len();
        let mut taken: usize = 0;
        assert(all.subrange(0, 0) =~= Seq::<LllMimetypeEntry>::empty());
        while rest.len() > 0
            invariant
                all.len() == total,
                taken + rest.len() == total,
                rest@ == all.subrange(taken as int, all.len() as int),
                entries@ == by_number(all.subrange(0, taken as int)),
            decreases rest.len(),
        {
            let entry = rest.remove(0);
            proof {
                let head = all.subrange(0, taken + 1);
                assert(head.last() == entry);
                assert(head.drop_last() =~= all.subrange(0, taken as int));
            }
            entries.insert(entry.id, entry);
            taken += 1;
        }
        assert(all.subrange(0, taken as int) =~= all);
        LllMimetype { entries, extension: self.extension, mimetype: self.mimetype }
    }
}

impl LllMimetype {
    /// The programs that open files with the extension `extension`.
    pub fn get_entries_for_ext(&self, extension: &str) -> (found: Vec<&LllMimetypeEntry>)
        ensures
            found@.len() == programs_for(self.extension, self.entries@, extension@).len(),
            forall|k: int|
                0 <= k < found@.len() ==> *(#[trigger] found@[k]) == programs_for(
                    self.extension,
                    self.entries@,
                    extension@,
                )[k],
    {
        LllMimetype::get_entries(&self.extension, &self.entries, extension)
    }

    /// The programs that open files of the mimetype `mimetype`.
    pub fn get_entries_for_mimetype(&self, mimetype: &str) -> (found: Vec<&LllMimetypeEntry>)
        ensures
            found@.len() == programs_for(self.mimetype, self.entries@, mimetype@).len(),
            forall|k: int|
                0 <= k < found@.len() ==> *(#[trigger] found@[k]) == programs_for(
                    self.mimetype,
                    self.entries@,
                    mimetype@,
                )[k],
    {
        LllMimetype::get_entries(&self.mimetype, &self.entries, mimetype)
    }

    /// The programs of `entry_map` whose numbers `map` holds under `key`,
    /// in the order of the numbers.
    pub fn get_entries<'a>(
        map: &StringTable<Vec<usize>>,
        entry_map: &'a HashMap<usize, LllMimetypeEntry>,
        key: &str,
    ) -> (found: Vec<&'a LllMimetypeEntry>)
        ensures
            found@.len() == programs_for(*map, entry_map@, key@).len(),
            forall|k: int|
                0 <= k < found@.len() ==> *(#[trigger] found@[k]) == programs_for(
                    *map,
                    entry_map@,
                    key@,
                )[k],
    {
        let mut found: Vec<&'a LllMimetypeEntry> = Vec::new();
        match map.get(key) {
            Some(entry_ids) => {
                let mut i: usize = 0;
                assert(entry_ids@.subrange(0, 0) =~= Seq::<usize>::empty());
                while i < entry_ids.len()
                    invariant
                        i <= entry_ids.len(),
                        found@.len() == entries_for(
                            entry_map@,
                            entry_ids@.subrange(0, i as int),
                        ).len(),
                        forall|k: int|
                            0 <= k < found@.len() ==> *(#[trigger] found@[k]) == entries_for(
                                entry_map@,
                                entry_ids@.subrange(0, i as int),
                            )[k],
                    decreases entry_ids.len() - i,
                {
                    proof {
                        let next = entry_ids@.subrange(0, i + 1);
                        assert(next.last() == entry_ids@[i as int]);
                        assert(next.drop_last() =~= entry_ids@.subrange(0, i as int));
                    }
                    match entry_map.get(&entry_ids[i]) {
                        Some(entry) => {
                            found.push(entry);
                        },
                        None => {},
                    }
                    i += 1;
                }
                assert(entry_ids@.subrange(0, i as int) =~= entry_ids@);
            },
            None => {},
        }
        found
    }
}

/// The programs of `entries` whose numbers `table` holds under `key`, in
/// the order of the numbers; none where the table has no such line.
pub open spec fn programs_for(
    table: StringTable<Vec<usize>>,
    entries: Map<usize, LllMimetypeEntry>,
    key: Seq<char>,
) -> Seq<LllMimetypeEntry> {
    match table.value_of(key) {
        Some(ids) => entries_for(entries, ids@),
        None => Seq::empty(),
    }
}

impl Default for LllMimetype {
    fn default() -> (mimetype: LllMimetype)
        ensures
            mimetype.entries@ == Map::<usize, LllMimetypeEntry>::empty(),
            mimetype.extension.rows@.len() == 0,
            mimetype.mimetype.rows@.len() == 0,
    {
        LllMimetype {
            entries: HashMap::new(),
            mimetype: StringTable::new(),
            extension: StringTable::new(),
        }
    }
}

} // verus!
