//! The keys of the text field, and the key sequences that run commands.

use vstd::prelude::*;
use vstd::slice::slice_subrange;
use std::collections::HashMap;
use crate::commands::{arg_texts, from_args, parsed, Command};
use crate::error::KeymapError;
use crate::text::is_prefix;

verus! {

broadcast use vstd::std_specs::hash::group_hash_axioms;

pub const ESCAPE: i32 = 0x1B;

/// The key codes that the terminal library gives to the keys below.
pub const KEY_DOWN: i32 = 0x102;

pub const KEY_UP: i32 = 0x103;

pub const KEY_LEFT: i32 = 0x104;

pub const KEY_RIGHT: i32 = 0x105;

pub const KEY_HOME: i32 = 0x106;

pub const KEY_BACKSPACE: i32 = 0x107;

pub const KEY_DC: i32 = 0x14a;

pub const KEY_END: i32 = 0x168;

pub fn default_up() -> (k: i32)
    ensures
        k == KEY_UP,
{
    KEY_UP
}

pub fn default_down() -> (k: i32)
    ensures
        k == KEY_DOWN,
{
    KEY_DOWN
}

pub fn default_left() -> (k: i32)
    ensures
        k == KEY_LEFT,
{
    KEY_LEFT
}

pub fn default_right() -> (k: i32)
    ensures
        k == KEY_RIGHT,
{
    KEY_RIGHT
}

pub fn default_home() -> (k: i32)
    ensures
        k == KEY_HOME,
{
    KEY_HOME
}

pub fn default_end() -> (k: i32)
    ensures
        k == KEY_END,
{
    KEY_END
}

pub fn default_backspace() -> (k: i32)
    ensures
        k == KEY_BACKSPACE,
{
    KEY_BACKSPACE
}

pub fn default_delete() -> (k: i32)
    ensures
        k == KEY_DC,
{
    KEY_DC
}

/// The code of the line feed.
pub fn default_enter() -> (k: i32)
    ensures
        k == 10,
{
    10
}

pub fn default_escape() -> (k: i32)
    ensures
        k == ESCAPE,
{
    ESCAPE
}

/// The code of the horizontal tab.
pub fn default_tab() -> (k: i32)
    ensures
        k == 9,
{
    9
}

/// The keys that the text field reacts to.
#[derive(Clone, Copy, Debug)]
pub struct LllKeyMapping {
    pub up: i32,
    pub down: i32,
    pub left: i32,
    pub right: i32,
    pub home: i32,
    pub end: i32,
    pub backspace: i32,
    pub delete: i32,
    pub enter: i32,
    pub escape: i32,
    pub tab: i32,
}

impl Default for LllKeyMapping {
    fn default() -> (keys: LllKeyMapping)
        ensures
            keys.up == KEY_UP,
            keys.down == KEY_DOWN,
            keys.left == KEY_LEFT,
            keys.right == KEY_RIGHT,
            keys.home == KEY_HOME,
            keys.end == KEY_END,
            keys.backspace == KEY_BACKSPACE,
            keys.delete == KEY_DC,
            keys.enter == 10,
            keys.escape == ESCAPE,
            keys.tab == 9,
    {
        LllKeyMapping {
            up: default_up(),
            down: default_down(),
            left: default_left(),
            right: default_right(),
            home: default_home(),
            end: default_end(),
            backspace: default_backspace(),
            delete: default_delete(),
            enter: default_enter(),
            escape: default_escape(),
            tab: default_tab(),
        }
    }
}

/// What a key stands for at its place in a sequence: a command, or the
/// keys that may follow.
#[derive(Debug)]
pub enum CommandKeybind {
    SimpleKeybind(Command),
    CompositeKeybind(LllCommandMapping),
}

/// The keys that may come next, each with what it stands for. The whole
/// is a tree: the way from the root to a command spells the key sequence
/// that runs it.
#[derive(Debug)]
pub struct LllCommandMapping {
    pub bindings: HashMap<i32, CommandKeybind>,
}

/// What the key sequence `keys` leads to from the root of `map`: nothing
/// where the tree has no such way, and nothing for the empty sequence.
pub open spec fn lookup(map: LllCommandMapping, keys: Seq<i32>) -> Option<CommandKeybind>
    decreases keys.len(),
{
    if keys.len() == 0 || !map.bindings@.contains_key(keys[0]) {
        None
    } else {
        let bind = map.bindings@[keys[0]];
        if keys.len() == 1 {
            Some(bind)
        } else {
            match bind {
                CommandKeybind::CompositeKeybind(below) => lookup(below, keys.drop_first()),
                CommandKeybind::SimpleKeybind(_) => None,
            }
        }
    }
}

/// The command that the key sequence `keys` runs.
pub open spec fn bound_command(map: LllCommandMapping, keys: Seq<i32>) -> Option<Command> {
    match lookup(map, keys) {
        Some(CommandKeybind::SimpleKeybind(c)) => Some(c),
        _ => None,
    }
}

/// The key sequence `keys` is the beginning of longer ones and runs
/// nothing itself.
pub open spec fn is_pending(map: LllCommandMapping, keys: Seq<i32>) -> bool {
    lookup(map, keys) matches Some(CommandKeybind::CompositeKeybind(_))
}

/// A binding of `keys` would be ambiguous in `map`: a sequence that runs a
/// command is a beginning of `keys` or `keys` itself, or `keys` is the
/// beginning of a longer sequence.
pub open spec fn conflicts(map: LllCommandMapping, keys: Seq<i32>) -> bool
    decreases keys.len(),
{
    if keys.len() == 0 || !map.bindings@.contains_key(keys[0]) {
        false
    } else {
        match map.bindings@[keys[0]] {
            CommandKeybind::SimpleKeybind(_) => true,
            CommandKeybind::CompositeKeybind(below) => keys.len() == 1 || conflicts(
                below,
                keys.drop_first(),
            ),
        }
    }
}

/// `conflicts` says what its description says.
pub proof fn lemma_conflicts(map: LllCommandMapping, keys: Seq<i32>)
    ensures
        conflicts(map, keys) <==> is_pending(map, keys) || exists|k: int|
            1 <= k <= keys.len() && #[trigger] bound_command(map, keys.subrange(0, k)) is Some,
    decreases keys.len(),
{
    if keys.len() > 0 {
        assert(keys.subrange(0, 1)[0] == keys[0]);
        if !map.bindings@.contains_key(keys[0]) {
            assert forall|k: int| 1 <= k <= keys.len() implies #[trigger] bound_command(
                map,
                keys.subrange(0, k),
            ) is None by {
                assert(keys.subrange(0, k)[0] == keys[0]);
            }
        } else {
            match map.bindings@[keys[0]] {
                CommandKeybind::SimpleKeybind(_) => {
                    assert(bound_command(map, keys.subrange(0, 1)) is Some);
                },
                CommandKeybind::CompositeKeybind(below) => {
                    let rest = keys.drop_first();
                    if keys.len() > 1 {
                        lemma_conflicts(below, rest);
                        assert(is_pending(map, keys) == is_pending(below, rest));
                        assert forall|k: int| 2 <= k <= keys.len() implies #[trigger] bound_command(
                            map,
                            keys.subrange(0, k),
                        ) == bound_command(below, rest.subrange(0, k - 1)) by {
                            assert(keys.subrange(0, k)[0] == keys[0]);
                            assert(keys.subrange(0, k).drop_first() =~= rest.subrange(0, k - 1));
                        }
                        if conflicts(below, rest) && !is_pending(below, rest) {
                            let k = choose|k: int|
                                1 <= k <= rest.len() && #[trigger] bound_command(
                                    below,
                                    rest.subrange(0, k),
                                ) is Some;
                            assert(bound_command(map, keys.subrange(0, k + 1)) is Some);
                        }
                        if exists|k: int|
                            1 <= k <= keys.len() && #[trigger] bound_command(
                                map,
                                keys.subrange(0, k),
                            ) is Some {
                            let k = choose|k: int|
                                1 <= k <= keys.len() && #[trigger] bound_command(
                                    map,
                                    keys.subrange(0, k),
                                ) is Some;
                            assert(k >= 2);
                            assert(bound_command(below, rest.subrange(0, k - 1)) is Some);
                        }
                    } else {
                        assert(keys.subrange(0, 1) =~= keys);
                    }
                },
            }
        }
    }
}

/// No key sequence that runs a command is the beginning of another: where
/// `first` runs a command, nothing that begins with `first` and goes on
/// leads anywhere.
pub proof fn lemma_bound_ends(map: LllCommandMapping, first: Seq<i32>, second: Seq<i32>)
    requires
        bound_command(map, first) is Some,
        is_prefix(first, second),
        first != second,
    ensures
        lookup(map, second) is None,
    decreases first.len(),
{
    assert(second.subrange(0, first.len() as int) == first);
    assert(first.len() < second.len()) by {
        if first.len() == second.len() {
            assert(second.subrange(0, first.len() as int) =~= second);
        }
    }
    assert(first.len() > 0);
    assert(second[0] == second.subrange(0, first.len() as int)[0]);
    if first.len() > 1 {
        match map.bindings@[first[0]] {
            CommandKeybind::CompositeKeybind(below) => {
                assert(second.drop_first().subrange(0, first.len() - 1) =~= first.drop_first());
                lemma_bound_ends(below, first.drop_first(), second.drop_first());
            },
            CommandKeybind::SimpleKeybind(_) => {},
        }
    }
}

/// Of two different key sequences that run commands neither is the
/// beginning of the other.
pub proof fn lemma_prefix_free(map: LllCommandMapping, first: Seq<i32>, second: Seq<i32>)
    requires
        bound_command(map, first) is Some,
        bound_command(map, second) is Some,
        first != second,
    ensures
        !is_prefix(first, second),
        !is_prefix(second, first),
{
    if is_prefix(first, second) {
        lemma_bound_ends(map, first, second);
    }
    if is_prefix(second, first) {
        lemma_bound_ends(map, second, first);
    }
}

/// `after` is `before` with `keys` bound to `command`: that sequence runs
/// the command, its beginnings wait for more keys, and every other
/// sequence leads where it led.
pub open spec fn binding_added(
    before: LllCommandMapping,
    after: LllCommandMapping,
    keys: Seq<i32>,
    command: Command,
) -> bool {
    &&& forall|s: Seq<i32>| #[trigger]
        bound_command(after, s) == (if s == keys {
            Some(command)
        } else {
            bound_command(before, s)
        })
    &&& forall|s: Seq<i32>| #[trigger]
        is_pending(after, s) == (is_pending(before, s) || (0 < s.len() < keys.len() && is_prefix(
            s,
            keys,
        )))
}

/// Every key sequence leads in `after` where it led in `before`, as far as
/// commands and waiting go.
pub open spec fn same_bindings(before: LllCommandMapping, after: LllCommandMapping) -> bool {
    &&& forall|s: Seq<i32>| #[trigger] bound_command(after, s) == bound_command(before, s)
    &&& forall|s: Seq<i32>| #[trigger] is_pending(after, s) == is_pending(before, s)
}

impl LllCommandMapping {
    /// A tree without bindings.
    pub fn new() -> (map: LllCommandMapping)
        ensures
            map.bindings@ == Map::<i32, CommandKeybind>::empty(),
            forall|s: Seq<i32>| lookup(map, s) is None,
    {
        LllCommandMapping { bindings: HashMap::new() }
    }

    /// What the key sequence `keys` leads to.
    pub fn get(&self, keys: &[i32]) -> (r: Option<&CommandKeybind>)
        ensures
            match r {
                Some(bind) => lookup(*self, keys@) == Some(*bind),
                None => lookup(*self, keys@) is None,
            },
    {
        if keys.len() == 0 {
            return None;
        }
        let mut cur: &LllCommandMapping = self;
        let mut at: usize = 0;
        assert(keys@.subrange(0, keys@.len() as int) =~= keys@);
        loop
            invariant
                at < keys.len(),
                lookup(*self, keys@) == lookup(*cur, keys@.subrange(at as int, keys@.len() as int)),
            decreases keys.len() - at,
        {
            let ghost rest = keys@.subrange(at as int, keys@.len() as int);
            assert(rest[0] == keys@[at as int]);
            assert(rest.drop_first() =~= keys@.subrange(at + 1, keys@.len() as int));
            match cur.bindings.get(&keys[at]) {
                None => {
                    return None;
                },
                Some(bind) => {
                    if at + 1 == keys.len() {
                        return Some(bind);
                    }
                    match bind {
                        CommandKeybind::CompositeKeybind(below) => {
                            cur = below;
                            at += 1;
                        },
                        CommandKeybind::SimpleKeybind(_) => {
                            return None;
                        },
                    }
                },
            }
        }
    }

    /// Takes the key `key` after the keys `pending` that wait for more.
    /// Where the sequence now runs a command, that command is handed out
    /// and nothing waits any more. Where it is the beginning of longer
    /// sequences, it waits for the next key. Where it leads nowhere, it is
    /// dropped without a word and nothing waits any more.
    pub fn resolve(&self, pending: &mut Vec<i32>, key: i32) -> (r: Option<&Command>)
        ensures
            match lookup(*self, old(pending)@.push(key)) {
                Some(CommandKeybind::SimpleKeybind(c)) => r == Some(&c)
                    && final(pending)@.len() == 0,
                Some(CommandKeybind::CompositeKeybind(_)) => r is None && final(pending)@ == old(
                    pending,
                )@.push(key),
                None => r is None && final(pending)@.len() == 0,
            },
    {
        pending.push(key);
        match self.get(pending.as_slice()) {
            Some(CommandKeybind::SimpleKeybind(c)) => {
                pending.clear();
                Some(c)
            },
            Some(CommandKeybind::CompositeKeybind(_)) => None,
            None => {
                pending.clear();
                None
            },
        }
    }
}

/// What `keys` stands for where it alone is bound, to `command`: the
/// command behind its last key, and behind each key before it the keys
/// that follow.
fn chain(command: Command, keys: &[i32]) -> (bind: CommandKeybind)
    requires
        keys@.len() > 0,
    ensures
        forall|s: Seq<i32>| #[trigger] runs_from(bind, s) == (if s == keys@.drop_first() {
            Some(command)
        } else {
            None
        }),
        forall|s: Seq<i32>| #[trigger] waits_from(bind, s) == (is_prefix(s, keys@.drop_first()) && s
            != keys@.drop_first()),
    decreases keys@.len(),
{
    let ghost tail = keys@.drop_first();
    if keys.len() == 1 {
        let bind = CommandKeybind::SimpleKeybind(command);
        proof {
            assert forall|s: Seq<i32>| true implies (#[trigger] runs_from(bind, s) == (if s
                == tail {
                Some(command)
            } else {
                None
            })) by {
                if s.len() == 0 {
                    assert(s =~= tail);
                }
            }
            assert forall|s: Seq<i32>| true implies (#[trigger] waits_from(bind, s) == (is_prefix(
                s,
                tail,
            ) && s != tail)) by {
                if is_prefix(s, tail) {
                    assert(s =~= tail);
                }
            }
        }
        bind
    } else {
        let rest = slice_subrange(keys, 1, keys.len());
        assert(rest@ =~= tail);
        let inner = chain(command, rest);
        let mut bindings: HashMap<i32, CommandKeybind> = HashMap::new();
        bindings.insert(rest[0], inner);
        let below = LllCommandMapping { bindings };
        let bind = CommandKeybind::CompositeKeybind(below);
        proof {
            assert(tail.len() > 0 && tail[0] == rest@[0]);
            assert forall|s: Seq<i32>| s.len() > 0 implies #[trigger] leads_to(bind, s) == (if s[0]
                == tail[0] {
                leads_to(inner, s.drop_first())
            } else {
                None
            }) by {
                if s[0] != tail[0] {
                    assert(!below.bindings@.contains_key(s[0]));
                }
            }
            assert forall|s: Seq<i32>| true implies (#[trigger] runs_from(bind, s) == (if s
                == tail {
                Some(command)
            } else {
                None
            })) by {
                if s.len() > 0 {
                    lemma_split(tail, s);
                    assert(leads_to(bind, s) == leads_to(bind, s));
                    assert(runs_from(inner, s.drop_first()) == runs_from(inner, s.drop_first()));
                }
            }
            assert forall|s: Seq<i32>| true implies (#[trigger] waits_from(bind, s) == (is_prefix(
                s,
                tail,
            ) && s != tail)) by {
                if s.len() > 0 {
                    lemma_split(tail, s);
                    assert(leads_to(bind, s) == leads_to(bind, s));
                    let t = s.drop_first();
                    assert(waits_from(inner, t) == (is_prefix(t, tail.drop_first()) && t
                        != tail.drop_first()));
                    if s[0] == tail[0] {
                        assert(leads_to(bind, s) == leads_to(inner, t));
                        assert(waits_from(bind, s) == waits_from(inner, t));
                    } else {
                        assert(leads_to(bind, s) is None);
                    }
                } else {
                    assert(tail.subrange(0, 0) =~= s);
                    assert(is_prefix(s, tail));
                    assert(waits_from(bind, s));
                }
            }
        }
        bind
    }
}

/// What the key sequence `s` leads to from what a key stands for: that
/// itself for the empty sequence, and for a longer one what it leads to
/// among the keys that follow.
pub open spec fn leads_to(bind: CommandKeybind, s: Seq<i32>) -> Option<CommandKeybind> {
    if s.len() == 0 {
        Some(bind)
    } else {
        match bind {
            CommandKeybind::CompositeKeybind(below) => lookup(below, s),
            CommandKeybind::SimpleKeybind(_) => None,
        }
    }
}

/// The command that `s` runs from what a key stands for.
pub open spec fn runs_from(bind: CommandKeybind, s: Seq<i32>) -> Option<Command> {
    match leads_to(bind, s) {
        Some(CommandKeybind::SimpleKeybind(c)) => Some(c),
        _ => None,
    }
}

/// From what a key stands for, `s` is the beginning of longer sequences.
pub open spec fn waits_from(bind: CommandKeybind, s: Seq<i32>) -> bool {
    leads_to(bind, s) matches Some(CommandKeybind::CompositeKeybind(_))
}

/// How a sequence relates to `keys` follows from its first key and from
/// how the rest relates to the rest of `keys`.
pub proof fn lemma_split(keys: Seq<i32>, s: Seq<i32>)
    requires
        keys.len() > 0,
        s.len() > 0,
    ensures
        s == keys <==> s[0] == keys[0] && s.drop_first() == keys.drop_first(),
        is_prefix(s, keys) <==> s[0] == keys[0] && is_prefix(s.drop_first(), keys.drop_first()),
{
    if s[0] == keys[0] && s.drop_first() == keys.drop_first() {
        assert(s =~= seq![s[0]] + s.drop_first());
        assert(keys =~= seq![keys[0]] + keys.drop_first());
    }
    if is_prefix(s, keys) {
        assert(keys.subrange(0, s.len() as int)[0] == keys[0]);
        assert(keys.drop_first().subrange(0, s.len() - 1) =~= keys.subrange(
            0,
            s.len() as int,
        ).drop_first());
    }
    if s[0] == keys[0] && is_prefix(s.drop_first(), keys.drop_first()) {
        assert(keys.subrange(0, s.len() as int) =~= seq![keys[0]] + keys.drop_first().subrange(
            0,
            s.len() - 1,
        ));
        assert(s =~= seq![s[0]] + s.drop_first());
    }
}

/// Which kind of thing a key stands for.
enum Slot {
    Free,
    Leaf,
    Branch,
}

/// Binds the key sequence `keys` to `keycommand`. An empty sequence binds
/// nothing. A binding that would be ambiguous is refused, and the tree
/// stays as it is: no sequence that runs a command may be the beginning of
/// another, or be bound twice.
pub fn insert_keycommand(map: &mut LllCommandMapping, keycommand: Command, keys: &[i32]) -> (r:
    Result<(), KeymapError>)
    ensures
        keys@.len() == 0 ==> r is Ok,
        keys@.len() > 0 ==> (r is Ok <==> !conflicts(*old(map), keys@)),
        r is Err ==> r == Err::<(), KeymapError>(KeymapError::Ambiguous),
        r is Err || keys@.len() == 0 ==> same_bindings(*old(map), *final(map)),
        r is Ok && keys@.len() > 0 ==> binding_added(*old(map), *final(map), keys@, keycommand),
    decreases keys@.len(),
{
    if keys.len() == 0 {
        return Ok(());
    }
    let key = keys[0];
    let ghost before = *map;
    let slot = match map.bindings.get(&key) {
        None => Slot::Free,
        Some(CommandKeybind::SimpleKeybind(_)) => Slot::Leaf,
        Some(CommandKeybind::CompositeKeybind(_)) => Slot::Branch,
    };
    match slot {
        Slot::Leaf => Err(KeymapError::Ambiguous),
        Slot::Free => {
            let bind = chain(keycommand, keys);
            map.bindings.insert(key, bind);
            proof {
                let after = *map;
                assert forall|s: Seq<i32>| true implies (#[trigger] lookup(after, s) == (if s.len()
                    > 0 && s[0] == key {
                    leads_to(bind, s.drop_first())
                } else {
                    lookup(before, s)
                })) by {}
                assert forall|s: Seq<i32>| #[trigger]
                    bound_command(after, s) == (if s == keys@ {
                        Some(keycommand)
                    } else {
                        bound_command(before, s)
                    }) by {
                    assert(lookup(after, s) == lookup(after, s));
                    if s.len() > 0 {
                        lemma_split(keys@, s);
                        if s[0] == key {
                            assert(runs_from(bind, s.drop_first()) == runs_from(
                                bind,
                                s.drop_first(),
                            ));
                            assert(lookup(before, s) is None);
                        }
                    }
                }
                assert forall|s: Seq<i32>| #[trigger]
                    is_pending(after, s) == (is_pending(before, s) || (0 < s.len() < keys@.len()
                        && is_prefix(s, keys@))) by {
                    assert(lookup(after, s) == lookup(after, s));
                    if s.len() > 0 {
                        lemma_split(keys@, s);
                        if s[0] == key {
                            let t = s.drop_first();
                            assert(waits_from(bind, t) == (is_prefix(t, keys@.drop_first()) && t
                                != keys@.drop_first()));
                            assert(lookup(after, s) == leads_to(bind, t));
                            assert(is_pending(after, s) == waits_from(bind, t));
                            assert(lookup(before, s) is None);
                            if s.len() == keys@.len() && is_prefix(s, keys@) {
                                assert(keys@.subrange(0, s.len() as int) =~= keys@);
                            }
                        } else {
                            assert(lookup(after, s) == lookup(before, s));
                        }
                    } else {
                        assert(lookup(after, s) is None);
                        assert(lookup(before, s) is None);
                    }
                }
            }
            Ok(())
        },
        Slot::Branch => {
            if keys.len() == 1 {
                return Err(KeymapError::Ambiguous);
            }
            let rest = slice_subrange(keys, 1, keys.len());
            assert(rest@ =~= keys@.drop_first());
            match map.bindings.remove(&key) {
                Some(CommandKeybind::CompositeKeybind(mut below)) => {
                    let ghost was = below;
                    let r = insert_keycommand(&mut below, keycommand, rest);
                    let ghost now = below;
                    map.bindings.insert(key, CommandKeybind::CompositeKeybind(below));
                    proof {
                        let after = *map;
                        assert(before.bindings@[key] == CommandKeybind::CompositeKeybind(was));
                        assert forall|s: Seq<i32>| s.len() > 0 && s[0] != key
                            implies #[trigger] lookup(
                            after,
                            s,
                        ) == lookup(before, s) by {}
                        assert forall|s: Seq<i32>| #[trigger]
                            bound_command(after, s) == (if r is Ok && s == keys@ {
                                Some(keycommand)
                            } else {
                                bound_command(before, s)
                            }) by {
                            if s.len() > 0 {
                                lemma_split(keys@, s);
                                if s[0] != key {
                                    assert(lookup(after, s) == lookup(before, s));
                                } else if s.len() > 1 {
                                    assert(bound_command(now, s.drop_first()) == bound_command(
                                        now,
                                        s.drop_first(),
                                    ));
                                    assert(bound_command(after, s) == bound_command(
                                        now,
                                        s.drop_first(),
                                    ));
                                    assert(bound_command(before, s) == bound_command(
                                        was,
                                        s.drop_first(),
                                    ));
                                }
                            }
                        }
                        assert forall|s: Seq<i32>| #[trigger]
                            is_pending(after, s) == (is_pending(before, s) || (r is Ok && 0
                                < s.len() < keys@.len() && is_prefix(s, keys@))) by {
                            if s.len() > 0 {
                                lemma_split(keys@, s);
                                if s[0] != key {
                                    assert(lookup(after, s) == lookup(before, s));
                                } else if s.len() > 1 {
                                    assert(is_pending(now, s.drop_first()) == is_pending(
                                        now,
                                        s.drop_first(),
                                    ));
                                    assert(is_pending(after, s) == is_pending(now, s.drop_first()));
                                    assert(is_pending(before, s)
                                        == is_pending(was, s.drop_first()));
                                } else {
                                    assert(keys@.drop_first().subrange(0, 0) =~= s.drop_first());
                                }
                            }
                        }
                    }
                    r
                },
                Some(other) => {
                    map.bindings.insert(key, other);
                    Err(KeymapError::Ambiguous)
                },
                None => Err(KeymapError::Ambiguous),
            }
        },
    }
}

/// One line of the key map: a key sequence, the name of a command and its
/// arguments.
#[derive(Debug)]
pub struct LllMapCommand {
    pub keys: Vec<i32>,
    pub command: String,
    pub args: Vec<String>,
}

/// The key map as the configuration file gives it.
#[derive(Debug)]
pub struct LllRawCommandMapping {
    pub mapcommand: Vec<LllMapCommand>,
}

/// The texts of the arguments of a line.
pub open spec fn line_args(line: LllMapCommand) -> Seq<Seq<char>> {
    Seq::new(line.args@.len(), |i: int| line.args@[i]@)
}

/// Two key sequences cannot both run commands: one is the beginning of the
/// other, or they are the same.
pub open spec fn clashes(a: Seq<i32>, b: Seq<i32>) -> bool {
    a.len() > 0 && b.len() > 0 && (is_prefix(a, b) || is_prefix(b, a))
}

/// The line names a command that exists and gives it arguments that it
/// takes.
pub open spec fn line_parses(line: LllMapCommand) -> bool {
    exists|c: Command| #[trigger] parsed(line.command@, line_args(line), Ok(c))
}

/// The keys of the line `k` clash with those of a line before it.
pub open spec fn line_clashes(lines: Seq<LllMapCommand>, k: int) -> bool {
    exists|j: int| 0 <= j < k && clashes((#[trigger] lines[j]).keys@, lines[k].keys@)
}

/// The line `k` can be bound beside the lines before it.
pub open spec fn line_fits(lines: Seq<LllMapCommand>, k: int) -> bool {
    line_parses(lines[k]) && !line_clashes(lines, k)
}

/// One of the first `n` lines has the keys `s`.
pub open spec fn has_keys(lines: Seq<LllMapCommand>, n: int, s: Seq<i32>) -> bool {
    exists|j: int| 0 <= j < n && (#[trigger] lines[j]).keys@ == s
}

/// `s` is the beginning of the keys of one of the first `n` lines, and
/// not all of them.
pub open spec fn begins_keys(lines: Seq<LllMapCommand>, n: int, s: Seq<i32>) -> bool {
    exists|j: int| 0 <= j < n && is_prefix(s, (#[trigger] lines[j]).keys@) && s != lines[j].keys@
}

/// The tree holds the first `n` lines and nothing else: the key sequences
/// that run a command are the keys of these lines, each runs the command
/// that its line asks for, and the sequences that wait for more keys are
/// the beginnings of these keys.
pub open spec fn holds_lines(map: LllCommandMapping, lines: Seq<LllMapCommand>, n: int) -> bool {
    &&& forall|s: Seq<i32>| #[trigger]
        bound_command(map, s) is Some <==> s.len() > 0 && has_keys(lines, n, s)
    &&& forall|s: Seq<i32>| #[trigger] is_pending(map, s) <==> s.len() > 0
        && begins_keys(lines, n, s)
    &&& forall|j: int|
        0 <= j < n && (#[trigger] lines[j]).keys@.len() > 0 ==> parsed(
            lines[j].command@,
            line_args(lines[j]),
            Ok(bound_command(map, lines[j].keys@)->0),
        )
}

/// A name and arguments do not ask for a command and for a refusal at
/// once.
pub proof fn lemma_parsed_once(name: Seq<char>, args: Seq<Seq<char>>, c: Command, e: KeymapError)
    ensures
        !(parsed(name, args, Ok(c)) && parsed(name, args, Err(e))),
{
}

/// In a tree that holds the first `n` lines, the keys of the line `n` are
/// ambiguous exactly where they clash with the keys of one of these lines.
proof fn lemma_conflicts_are_clashes(map: LllCommandMapping, lines: Seq<LllMapCommand>, n: int)
    requires
        0 <= n < lines.len(),
        holds_lines(map, lines, n),
    ensures
        conflicts(map, lines[n].keys@) <==> line_clashes(lines, n),
{
    let keys = lines[n].keys@;
    lemma_conflicts(map, keys);
    if is_pending(map, keys) {
        let j = choose|j: int| 0 <= j < n && is_prefix(keys, (#[trigger] lines[j]).keys@) && keys
            != lines[j].keys@;
        assert(clashes(lines[j].keys@, keys));
    }
    if exists|k: int| 1 <= k <= keys.len() && #[trigger] bound_command(map, keys.subrange(0, k))
        is Some {
        let k = choose|k: int|
            1 <= k <= keys.len() && #[trigger] bound_command(map, keys.subrange(0, k)) is Some;
        let head = keys.subrange(0, k);
        let j = choose|j: int| 0 <= j < n && (#[trigger] lines[j]).keys@ == head;
        assert(keys.subrange(0, head.len() as int) =~= head);
        assert(clashes(lines[j].keys@, keys));
    }
    if line_clashes(lines, n) {
        let j = choose|j: int| 0 <= j < n && clashes((#[trigger] lines[j]).keys@, keys);
        let other = lines[j].keys@;
        if is_prefix(other, keys) {
            assert(has_keys(lines, n, other));
            assert(bound_command(map, other) is Some);
            assert(keys.subrange(0, other.len() as int) == other);
        } else if other == keys {
            assert(keys.subrange(0, keys.len() as int) =~= keys);
            assert(has_keys(lines, n, keys));
            assert(bound_command(map, keys.subrange(0, keys.len() as int)) is Some);
        } else {
            assert(begins_keys(lines, n, keys));
            assert(is_pending(map, keys));
        }
    }
}

/// Binding the line `n`, which fits, to a tree that holds the first `n`
/// lines gives a tree that holds the first `n + 1`.
proof fn lemma_line_added(
    before: LllCommandMapping,
    after: LllCommandMapping,
    lines: Seq<LllMapCommand>,
    n: int,
    command: Command,
)
    requires
        0 <= n < lines.len(),
        holds_lines(before, lines, n),
        parsed(lines[n].command@, line_args(lines[n]), Ok(command)),
        !line_clashes(lines, n),
        if lines[n].keys@.len() == 0 {
            same_bindings(before, after)
        } else {
            binding_added(before, after, lines[n].keys@, command)
        },
    ensures
        holds_lines(after, lines, n + 1),
{
    let keys = lines[n].keys@;
    assert forall|s: Seq<i32>| #[trigger]
        bound_command(after, s) is Some <==> s.len() > 0 && has_keys(lines, n + 1, s) by {
        assert(bound_command(before, s) is Some <==> s.len() > 0 && has_keys(lines, n, s));
        if has_keys(lines, n + 1, s) {
            let j = choose|j: int| 0 <= j < n + 1 && (#[trigger] lines[j]).keys@ == s;
            if j < n {
                assert(has_keys(lines, n, s));
            }
        }
        if has_keys(lines, n, s) {
            let j = choose|j: int| 0 <= j < n && (#[trigger] lines[j]).keys@ == s;
            assert(has_keys(lines, n + 1, s));
        }
        if s == keys {
            assert(lines[n].keys@ == s);
        }
    }
    assert forall|s: Seq<i32>| #[trigger]
        is_pending(after, s) <==> s.len() > 0 && begins_keys(lines, n + 1, s) by {
        assert(is_pending(before, s) <==> s.len() > 0 && begins_keys(lines, n, s));
        if begins_keys(lines, n + 1, s) {
            let j = choose|j: int|
                0 <= j < n + 1 && is_prefix(s, (#[trigger] lines[j]).keys@) && s != lines[j].keys@;
            if j < n {
                assert(begins_keys(lines, n, s));
            } else if s.len() == keys.len() {
                assert(keys.subrange(0, s.len() as int) =~= keys);
            }
        }
        if begins_keys(lines, n, s) {
            let j = choose|j: int|
                0 <= j < n && is_prefix(s, (#[trigger] lines[j]).keys@) && s != lines[j].keys@;
            assert(begins_keys(lines, n + 1, s));
        }
        if 0 < s.len() < keys.len() && is_prefix(s, keys) {
            assert(is_prefix(s, lines[n].keys@) && s != lines[n].keys@);
        }
    }
    assert forall|j: int| 0 <= j < n + 1 && (#[trigger] lines[j]).keys@.len() > 0 implies parsed(
        lines[j].command@,
        line_args(lines[j]),
        Ok(bound_command(after, lines[j].keys@)->0),
    ) by {
        if j < n {
            if lines[j].keys@ == keys {
                assert(keys.subrange(0, keys.len() as int) =~= keys);
                assert(clashes(lines[j].keys@, keys));
            }
            assert(bound_command(after, lines[j].keys@) == bound_command(before, lines[j].keys@));
        } else {
            assert(bound_command(after, keys) == Some(command));
        }
    }
}

impl LllRawCommandMapping {
    /// Builds the tree of the key map, line by line. The first line that
    /// names no command, gives it arguments that it does not take, or
    /// clashes with a line before it ends the build with its error: a key
    /// map is used whole or not at all.
    pub fn flatten(self) -> (r: Result<LllCommandMapping, KeymapError>)
        ensures
            r is Ok <==> forall|k: int|
                0 <= k < self.mapcommand@.len() ==> #[trigger] line_fits(self.mapcommand@, k),
            r matches Ok(map) ==> holds_lines(map, self.mapcommand@, self.mapcommand@.len() as int),
            r matches Err(e) ==> exists|k: int|
                0 <= k < self.mapcommand@.len() && !(#[trigger] line_fits(self.mapcommand@, k)) && (
                forall|j: int| 0 <= j < k ==> #[trigger] line_fits(self.mapcommand@, j)) && (
                if line_parses(self.mapcommand@[k]) {
                    e == KeymapError::Ambiguous
                } else {
                    parsed(self.mapcommand@[k].command@, line_args(self.mapcommand@[k]), Err(e))
                }),
    {
        let mut keymaps = LllCommandMapping::new();
        let mut k: usize = 0;
        let ghost lines = self.mapcommand@;
        proof {
            assert forall|s: Seq<i32>| !(#[trigger] is_pending(keymaps, s)) && bound_command(
                keymaps,
                s,
            ) is None by {
                assert(lookup(keymaps, s) is None);
            }
        }
        while k < self.mapcommand.len()
            invariant
                k <= self.mapcommand.len(),
                lines == self.mapcommand@,
                holds_lines(keymaps, lines, k as int),
                forall|j: int| 0 <= j < k ==> #[trigger] line_fits(lines, j),
            decreases self.mapcommand.len() - k,
        {
            let line = &self.mapcommand[k];
            let mut args: Vec<&str> = Vec::new();
            let mut i: usize = 0;
            while i < line.args.len()
                invariant
                    i <= line.args.len(),
                    args.len() == i,
                    forall|j: int| 0 <= j < i ==> (#[trigger] args@[j])@ == line.args@[j]@,
                decreases line.args.len() - i,
            {
                args.push(line.args[i].as_str());
                i += 1;
            }
            assert(arg_texts(args@) =~= line_args(*line));
            let ghost before = keymaps;
            proof {
                lemma_conflicts_are_clashes(before, lines, k as int);
            }
            match from_args(line.command.as_str(), args.as_slice()) {
                Ok(command) => {
                    assert(line_parses(lines[k as int]));
                    match insert_keycommand(&mut keymaps, command, line.keys.as_slice()) {
                        Ok(()) => {
                            proof {
                                if line.keys@.len() == 0 {
                                    assert(!line_clashes(lines, k as int));
                                }
                                lemma_line_added(before, keymaps, lines, k as int, command);
                            }
                        },
                        Err(e) => {
                            assert(!line_fits(lines, k as int));
                            return Err(e);
                        },
                    }
                },
                Err(e) => {
                    proof {
                        assert forall|c: Command|
                            !(#[trigger] parsed(line.command@, line_args(*line), Ok(c))) by {
                            lemma_parsed_once(line.command@, line_args(*line), c, e);
                        }
                        assert(!line_fits(lines, k as int));
                    }
                    return Err(e);
                },
            }
            k += 1;
        }
        Ok(keymaps)
    }
}

} // verus!
