use vstd::prelude::*;

verus! {

/// The form of an attribute after its path.
#[derive(Debug, Clone, PartialEq, Eq)]
pub enum Meta {
    /// The bare path: `#[path]`.
    Path,
    /// A parenthesized list, `#[path(...)]`, with the token text inside the
    /// parentheses.
    List(String),
    /// `#[path = value]`, with the token text of the value.
    NameValue(String),
}

/// An attribute on an item or a field, as far as the planner reads it.
#[derive(Debug, Clone, PartialEq, Eq)]
pub struct Attribute {
    /// The segments of the attribute's path.
    pub path: Vec<String>,
    pub meta: Meta,
}

pub open spec fn borsh_skip_ident() -> Seq<char> {
    seq!['b', 'o', 'r', 's', 'h', '_', 's', 'k', 'i', 'p']
}

pub open spec fn borsh_init_ident() -> Seq<char> {
    seq!['b', 'o', 'r', 's', 'h', '_', 'i', 'n', 'i', 't']
}

/// The attribute's path is the single identifier `ident`.
pub open spec fn path_is(a: Attribute, ident: Seq<char>) -> bool {
    a.path@.len() == 1 && a.path@[0]@ == ident
}

/// What one attribute says of the initialization hook, if anything: the
/// method named in `#[borsh_init(method)]`.
pub open spec fn hook_of(a: Attribute) -> Option<Seq<char>> {
    if !path_is(a, borsh_init_ident()) {
        None
    } else {
        match a.meta {
            Meta::List(m) => Some(m@),
            _ => None,
        }
    }
}

/// The hook named by the first attribute that names one.
pub open spec fn initialize_with(attrs: Seq<Attribute>) -> Option<Seq<char>>
    decreases attrs.len(),
{
    if attrs.len() == 0 {
        None
    } else {
        match hook_of(attrs[0]) {
            Some(s) => Some(s),
            None => initialize_with(attrs.drop_first()),
        }
    }
}

fn single_segment(path: &Vec<String>, ident: &String) -> (r: bool)
    ensures
        r == (path@.len() == 1 && path@[0]@ == ident@),
{
    if path.len() != 1 {
        return false;
    }
    path[0] == *ident
}

/// Whether the attributes mark a field as skipped: one of them is
/// `#[borsh_skip]`, whatever follows its path.
pub fn contains_skip(attrs: &[Attribute]) -> (r: bool)
    ensures
        r == exists|i: int| 0 <= i < attrs@.len() && path_is(#[trigger] attrs@[i], borsh_skip_ident()),
{
    let ident = "borsh_skip".to_owned();
    proof {
        reveal_strlit("borsh_skip");
        assert(ident@ =~= borsh_skip_ident());
    }
    let mut i: usize = 0;
    while i < attrs.len()
        invariant
            i <= attrs@.len(),
            ident@ == borsh_skip_ident(),
            forall|k: int| 0 <= k < i ==> !path_is(#[trigger] attrs@[k], borsh_skip_ident()),
        decreases attrs@.len() - i,
    {
        if single_segment(&attrs[i].path, &ident) {
            return true;
        }
        i = i + 1;
    }
    false
}

/// The initialization hook that the attributes name: the method in the
/// first `#[borsh_init(method)]`.
pub fn contains_initialize_with(attrs: &[Attribute]) -> (r: Option<String>)
    ensures
        r is None ==> initialize_with(attrs@) is None,
        r is Some ==> initialize_with(attrs@) == Some(r->Some_0@),
{
    let ident = "borsh_init".to_owned();
    proof {
        reveal_strlit("borsh_init");
        assert(ident@ =~= borsh_init_ident());
    }
    let mut i: usize = 0;
    assert(attrs@.subrange(0, attrs@.len() as int) =~= attrs@);
    while i < attrs.len()
        invariant
            i <= attrs@.len(),
            ident@ == borsh_init_ident(),
            initialize_with(attrs@) == initialize_with(attrs@.subrange(i as int, attrs@.len() as int)),
        decreases attrs@.len() - i,
    {
        let a = &attrs[i];
        proof {
            let rest = attrs@.subrange(i as int, attrs@.len() as int);
            assert(rest.drop_first() =~= attrs@.subrange(i + 1, attrs@.len() as int));
            assert(rest[0] == attrs@[i as int]);
        }
        if single_segment(&a.path, &ident) {
            if let Meta::List(m) = &a.meta {
                return Some(m.clone());
            }
        }
        i = i + 1;
    }
    proof {
        assert(attrs@.subrange(i as int, attrs@.len() as int).len() == 0);
    }
    None
}

} // verus!
