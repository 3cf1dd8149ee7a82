//! Theme trees and the resolution of static member paths in them.
use vstd::prelude::*;
use crate::num::Num;

verus! {

/// A node of a theme tree.
pub enum ThemeNode {
    Str(String),
    Num(Num),
    /// A number whose digits do not fit the range numbers are computed in.
    NumOutOfRange,
    Obj(Vec<ThemeEntry>),
    /// An array, a boolean or null.
    Other,
}

/// A key of an object node with its value.
pub struct ThemeEntry {
    pub key: String,
    pub value: ThemeNode,
}

/// The value under `key` among `entries`, the first one when several match.
pub open spec fn lookup(entries: Seq<ThemeEntry>, key: Seq<char>) -> Option<ThemeNode>
    decreases entries.len(),
{
    if entries.len() == 0 {
        None
    } else if entries[0].key@ == key {
        Some(entries[0].value)
    } else {
        lookup(entries.drop_first(), key)
    }
}

/// The node reached from `node` by following the keys of `path`.
pub open spec fn descend(node: ThemeNode, path: Seq<String>) -> Option<ThemeNode>
    decreases path.len(),
{
    if path.len() == 0 {
        Some(node)
    } else {
        match node {
            ThemeNode::Obj(es) => match lookup(es@, path[0]@) {
                Some(c) => descend(c, path.drop_first()),
                None => None,
            },
            _ => None,
        }
    }
}

/// The entry under `key`, found by a scan from the front.
pub fn lookup_exec<'a>(entries: &'a Vec<ThemeEntry>, key: &String) -> (r: Option<&'a ThemeNode>)
    ensures
        r matches Some(n) ==> lookup(entries@, key@) == Some(*n),
        r is None ==> lookup(entries@, key@) is None,
{
    let mut i: usize = 0;
    assert(entries@.subrange(0, entries@.len() as int) == entries@);
    while i < entries.len()
        invariant
            i <= entries@.len(),
            lookup(entries@, key@) == lookup(entries@.subrange(i as int, entries@.len() as int), key@),
        decreases entries@.len() - i,
    {
        proof {
            let rest = entries@.subrange(i as int, entries@.len() as int);
            assert(rest.drop_first() == entries@.subrange(i as int + 1, entries@.len() as int));
        }
        if entries[i].key == *key {
            return Some(&entries[i].value);
        }
        i = i + 1;
    }
    None
}

/// The node reached from `theme` by following `path`.
pub fn descend_exec<'a>(theme: &'a ThemeNode, path: &Vec<String>) -> (r: Option<&'a ThemeNode>)
    ensures
        r matches Some(n) ==> descend(*theme, path@) == Some(*n),
        r is None ==> descend(*theme, path@) is None,
{
    let mut cur: &ThemeNode = theme;
    let mut i: usize = 0;
    assert(path@.subrange(0, path@.len() as int) == path@);
    while i < path.len()
        invariant
            i <= path@.len(),
            descend(*theme, path@) == descend(*cur, path@.subrange(i as int, path@.len() as int)),
        decreases path@.len() - i,
    {
        proof {
            let rest = path@.subrange(i as int, path@.len() as int);
            assert(rest.drop_first() == path@.subrange(i as int + 1, path@.len() as int));
            assert(rest[0] == path@[i as int]);
        }
        match cur {
            ThemeNode::Obj(es) => match lookup_exec(es, &path[i]) {
                Some(c) => {
                    cur = c;
                },
                None => {
                    return None;
                },
            },
            _ => {
                return None;
            },
        }
        i = i + 1;
    }
    assert(path@.subrange(path@.len() as int, path@.len() as int).len() == 0);
    Some(cur)
}

} // verus!
