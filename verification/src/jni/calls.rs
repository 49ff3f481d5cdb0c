//! Java methods that a program may call, and the table that keeps them.

use crate::collections::StrMap;
use crate::jni::jni::Modifier;
use vstd::prelude::*;

verus! {

/// A method of a Java class: where it is, how it is called, and its
/// modifiers.
#[derive(Clone, Debug)]
pub struct Callable {
    pub classpath: String,
    pub method: String,
    pub descriptor: String,
    pub modifiers: Modifier,
}

/// The callables that were made so far, each under its id.
#[derive(Debug)]
pub struct CallableCache {
    pub entries: StrMap<Callable>,
}

impl Callable {
    /// A callable, kept in `cache` under `id` unless the cache holds one
    /// under that id already.
    pub fn new(
        cache: &mut CallableCache,
        id: String,
        path: String,
        method: String,
        descriptor: String,
        modifier: Modifier,
    ) -> (c: Callable)
        ensures
            c.classpath == path,
            c.method == method,
            c.descriptor == descriptor,
            c.modifiers == modifier,
            final(cache).entries@ == (if old(cache).entries@.contains_key(id@) {
                old(cache).entries@
            } else {
                old(cache).entries@.insert(id@, c)
            }),
    {
        let kept = Callable {
            classpath: path.clone(),
            method: method.clone(),
            descriptor: descriptor.clone(),
            modifiers: modifier,
        };
        let callable = Callable { classpath: path, method, descriptor, modifiers: modifier };
        cache_hash(cache, id, kept);
        callable
    }
}

impl CallableCache {
    pub fn new() -> (c: CallableCache)
        ensures
            c.entries@ == Map::<Seq<char>, Callable>::empty(),
    {
        CallableCache { entries: StrMap::new() }
    }
}

/// Keeps `cal` under `id`, over what the cache held under that id.
pub fn cache_add(cache: &mut CallableCache, id: String, cal: Callable)
    ensures
        final(cache).entries@ == old(cache).entries@.insert(id@, cal),
{
    cache.entries.insert(id, cal);
}

/// The callable that the cache holds under `cal`.
pub fn cache_get<'a>(cache: &'a CallableCache, cal: &String) -> (r: Option<&'a Callable>)
    ensures
        r == (if cache.entries@.contains_key(cal@) {
            Some(&cache.entries@[cal@])
        } else {
            None
        }),
{
    cache.entries.get(cal)
}

/// Keeps `cal` under `id` unless the cache holds a callable under that id
/// already.
pub fn cache_hash(cache: &mut CallableCache, id: String, cal: Callable)
    ensures
        final(cache).entries@ == (if old(cache).entries@.contains_key(id@) {
            old(cache).entries@
        } else {
            old(cache).entries@.insert(id@, cal)
        }),
{
    if !cache.entries.contains_key(&id) {
        cache_add(cache, id, cal)
    }
}

} // verus!
