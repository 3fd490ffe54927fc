//! Lookups of the files a model needs, once they have been received.
pub use vstd::hash_map::StringHashMap;
use vstd::prelude::*;

verus! {

/// `s` with every backslash turned into a slash.
pub open spec fn posix_chars(s: Seq<char>) -> Seq<char> {
    s.map_values(|c: char| if c == '\\' { '/' } else { c })
}

/// Relies on str::replace: every backslash of `s` becomes a slash, every
/// other character stays as it is.
#[verifier::external_body]
fn replace_backslashes(s: &str) -> (r: String)
    ensures
        r@ == posix_chars(s@),
{
    s.replace('\\', "/")
}

/// A path written with forward slashes only, as the file map keys it.
pub fn to_posix_path(path: &str) -> (r: String)
    ensures
        r@ == posix_chars(path@),
{
    replace_backslashes(path)
}

/// The name of a file that a lookup did not find.
pub struct MissingFile {
    pub name: String,
}

/// The entry of `map` under `key`, or an error naming the key.
pub fn get_value_from_map<'a, V>(map: &'a StringHashMap<V>, key: &str) -> (r: Result<
    &'a V,
    MissingFile,
>)
    ensures
        r is Ok == map@.contains_key(key@),
        r matches Ok(v) ==> *v == map@[key@],
        r matches Err(e) ==> e.name@ == key@,
{
    match map.get(key) {
        Some(v) => Ok(v),
        None => Err(MissingFile { name: key.to_string() }),
    }
}

} // verus!
