//! Static assets of the user interface: which embedded file a request path
//! names, and what a request for it is answered.

use vstd::prelude::*;
use vstd::string::*;
use crate::text::{
    Pattern, trim_spec, trim_start_spec, trim_end_spec, trim_bounds, skip_leading, chars_of,
    lemma_trim_untouched, lemma_trim_surrounding, lemma_trim_start_suffix, is_whitespace_spec,
};

verus! {

/// Why no asset can be served.
#[derive(Clone, Copy, Debug, PartialEq, Eq, Structural)]
pub enum AssetError {
    /// No embedded file has the requested name.
    NotFound,
}

/// The name of the page served for the root path.
pub open spec fn index_html() -> Seq<char> {
    seq!['i', 'n', 'd', 'e', 'x', '.', 'h', 't', 'm', 'l']
}

/// The embedded file name that a request for `asset` looks up: the path
/// trimmed of white space, `index.html` for the root (`/` or nothing), and
/// otherwise the path without its leading slashes.
pub open spec fn asset_name_spec(asset: Seq<char>) -> Seq<char> {
    let t = trim_spec(asset, Pattern::Whitespace);
    if t == seq!['/'] || t.len() == 0 {
        index_html()
    } else {
        trim_start_spec(t, Pattern::Slash)
    }
}

/// The embedded file name that a request for `asset` looks up.
pub fn asset_name(asset: &str) -> (r: String)
    ensures
        r@ == asset_name_spec(asset@),
{
    let chars = chars_of(asset);
    let n = chars.len();
    let (a, b) = trim_bounds(&chars, 0, n, Pattern::Whitespace);
    assert(chars@.subrange(0, n as int) =~= chars@);
    let ghost t = chars@.subrange(a as int, b as int);
    if a == b || (b - a == 1 && chars[a] == '/') {
        proof {
            reveal_strlit("index.html");
            assert("index.html"@ =~= index_html());
            if a != b {
                assert(t =~= seq!['/']);
            }
        }
        return String::from_str("index.html");
    }
    assert(t != seq!['/']) by {
        if t == seq!['/'] {
            assert(t.len() == 1 && t[0] == chars@[a as int]);
        }
    }
    let c = skip_leading(&chars, a, b, Pattern::Slash);
    String::from_str(asset.substring_char(c, b))
}

/// A leading slash does not change which file a path names, unless the path
/// is `/` itself (which names `index.html`, while `//` names the empty
/// name); the path is taken without surrounding white space.
pub proof fn lemma_asset_name_leading_slash(path: Seq<char>)
    requires
        trim_spec(path, Pattern::Whitespace) == path,
        path != seq!['/'],
    ensures
        asset_name_spec(seq!['/'] + path) == asset_name_spec(path),
{
    let s = seq!['/'] + path;
    assert(s[0] == '/');
    assert(s.drop_first() =~= path);
    if path.len() == 0 {
        assert(s =~= seq!['/']);
        assert(trim_start_spec(s, Pattern::Whitespace) == s);
        assert(trim_end_spec(s, Pattern::Whitespace) == s);
    } else {
        lemma_trim_untouched(path, Pattern::Whitespace);
        assert(s.last() == path.last());
        assert(trim_start_spec(s, Pattern::Whitespace) == s);
        assert(trim_end_spec(s, Pattern::Whitespace) == s);
        assert(s != seq!['/']) by {
            if s == seq!['/'] {
                assert(s.len() == 1);
            }
        }
    }
}

/// Which file a path names, told by the path itself: white space around it
/// is ignored; a blank path or `/` names `index.html`; any other path names
/// what follows its leading slashes, unchanged: the name is a suffix of the
/// trimmed path, everything before it is a slash, and it does not start
/// with one.
pub proof fn lemma_asset_name_is_path_after_slashes(path: Seq<char>, w1: Seq<char>, w2: Seq<char>)
    requires
        forall|i: int| 0 <= i < w1.len() ==> is_whitespace_spec(#[trigger] w1[i]),
        forall|i: int| 0 <= i < w2.len() ==> is_whitespace_spec(#[trigger] w2[i]),
    ensures
        asset_name_spec(w1 + path + w2) == asset_name_spec(path),
        ({
            let t = trim_spec(path, Pattern::Whitespace);
            let name = asset_name_spec(path);
            &&& (t.len() == 0 || t == seq!['/']) ==> name == index_html()
            &&& !(t.len() == 0 || t == seq!['/']) ==> {
                &&& name.len() <= t.len()
                &&& name == t.subrange(t.len() - name.len(), t.len() as int)
                &&& forall|i: int| 0 <= i < t.len() - name.len() ==> #[trigger] t[i] == '/'
                &&& name.len() > 0 ==> name[0] != '/'
            }
        }),
{
    lemma_trim_surrounding(path, w1, w2, Pattern::Whitespace);
    let t = trim_spec(path, Pattern::Whitespace);
    lemma_trim_start_suffix(t, Pattern::Slash);
}

/// A path of one slash followed by a name (without surrounding white space,
/// not itself starting with a slash) names exactly that name.
pub proof fn lemma_asset_name_after_one_slash(name: Seq<char>)
    requires
        name.len() > 0,
        name[0] != '/',
        trim_spec(name, Pattern::Whitespace) == name,
    ensures
        asset_name_spec(seq!['/'] + name) == name,
{
    let p = seq!['/'] + name;
    lemma_trim_untouched(name, Pattern::Whitespace);
    assert(p[0] == '/');
    assert(p.last() == name.last());
    assert(p.drop_first() =~= name);
    assert(trim_start_spec(p, Pattern::Whitespace) == p);
    assert(trim_end_spec(p, Pattern::Whitespace) == p);
    assert(p != seq!['/']) by {
        assert(p.len() == name.len() + 1);
    }
    assert(trim_start_spec(p, Pattern::Slash) == trim_start_spec(name, Pattern::Slash));
    assert(trim_start_spec(name, Pattern::Slash) == name);
}

/// Serves the static asset that `asset` names: `lookup` is asked for the
/// file under [`asset_name`]`(asset)`, and what it finds is the answer.
pub fn get_static_asset<F: Fn(&str) -> Option<Vec<u8>>>(asset: &str, lookup: F) -> (r: Result<
    Vec<u8>,
    AssetError,
>)
    requires
        forall|name: &str| #[trigger] call_requires(lookup, (name,)),
    ensures
        exists|name: &str, found: Option<Vec<u8>>|
            {
                &&& name@ == asset_name_spec(asset@)
                &&& #[trigger] call_ensures(lookup, (name,), found)
                &&& r == match found {
                    Some(data) => Ok::<Vec<u8>, AssetError>(data),
                    None => Err(AssetError::NotFound),
                }
            },
{
    let name = asset_name(asset);
    let found = lookup(name.as_str());
    match found {
        Some(data) => Ok(data),
        None => Err(AssetError::NotFound),
    }
}

} // verus!
