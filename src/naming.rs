use vstd::prelude::*;

verus! {

/// The separator between a server name and a tool name in an aggregated name.
pub const TOOL_SEPARATOR: &'static str = "---";

/// The separator's characters.
pub open spec fn sep() -> Seq<char> {
    seq!['-', '-', '-']
}

/// Whether the separator starts at position `i` of `s`.
pub open spec fn sep_at(s: Seq<char>, i: int) -> bool {
    0 <= i && i + 3 <= s.len() && s[i] == '-' && s[i + 1] == '-' && s[i + 2] == '-'
}

/// Whether `s` holds the separator anywhere.
pub open spec fn contains_sep(s: Seq<char>) -> bool {
    exists|i: int| #[trigger] sep_at(s, i)
}

/// The name under which a server's tool is listed upstream.
pub open spec fn qualified(server: Seq<char>, tool: Seq<char>) -> Seq<char> {
    server + sep() + tool
}

/// Splitting `s` on the separator (matches taken left to right, without
/// overlap) gives exactly two parts, both non-empty, the first match being
/// at `i`.
pub open spec fn splits_at(s: Seq<char>, i: int) -> bool {
    &&& sep_at(s, i)
    &&& forall|j: int| 0 <= j < i ==> !#[trigger] sep_at(s, j)
    &&& forall|j: int| i + 3 <= j ==> !#[trigger] sep_at(s, j)
    &&& 0 < i
    &&& i + 3 < s.len()
}

/// Whether `s` names a server's tool in the prefixed form.
pub open spec fn is_prefixed(s: Seq<char>) -> bool {
    exists|i: int| splits_at(s, i)
}

/// A server name that splits back out of any aggregated name built on it:
/// not empty, free of the separator, and not ending in `-`.
pub open spec fn plain_server_name(s: Seq<char>) -> bool {
    s.len() > 0 && !contains_sep(s) && s.last() != '-'
}

/// A tool name that splits back out of an aggregated name: not empty and free
/// of the separator.
pub open spec fn plain_tool_name(t: Seq<char>) -> bool {
    t.len() > 0 && !contains_sep(t)
}

/// `server` followed by the separator and `tool`.
pub fn qualify(server: &String, tool: &String) -> (r: String)
    ensures
        r@ == qualified(server@, tool@),
{
    let mut r = server.clone();
    r.append(TOOL_SEPARATOR);
    r.append(tool.as_str());
    proof {
        reveal_strlit("---");
        assert(r@ =~= qualified(server@, tool@));
    }
    r
}

/// Whether the separator starts at position `i` of `s`.
fn sep_starts_at(s: &str, n: usize, i: usize) -> (r: bool)
    requires
        n == s@.len(),
    ensures
        r == sep_at(s@, i as int),
{
    if i < n && n - i >= 3 {
        s.get_char(i) == '-' && s.get_char(i + 1) == '-' && s.get_char(i + 2) == '-'
    } else {
        false
    }
}

/// The first position at or after `from` where the separator starts; `n`
/// when there is none.
fn find_sep(s: &str, n: usize, from: usize) -> (r: usize)
    requires
        n == s@.len(),
    ensures
        r <= n,
        r < n ==> sep_at(s@, r as int),
        r < n ==> from <= r,
        forall|j: int| from <= j < r ==> !#[trigger] sep_at(s@, j),
        r == n ==> forall|j: int| from <= j ==> !#[trigger] sep_at(s@, j),
{
    let mut i: usize = from;
    while i < n
        invariant
            n == s@.len(),
            from <= i,
            forall|j: int| from <= j < i ==> !#[trigger] sep_at(s@, j),
        decreases n - i,
    {
        if sep_starts_at(s, n, i) {
            return i;
        }
        i = i + 1;
    }
    assert forall|j: int| from <= j implies !#[trigger] sep_at(s@, j) by {
        if j >= i {
        }
    }
    n
}

/// Splits an aggregated tool name into its server and tool parts. The name is
/// split on every separator, left to right; only a split into exactly two
/// non-empty parts yields them.
pub fn split_qualified(name: &str) -> (r: Option<(String, String)>)
    ensures
        match r {
            Some((server, tool)) => exists|i: int|
                splits_at(name@, i) && server@ == name@.subrange(0, i) && tool@ == name@.subrange(
                    i + 3,
                    name@.len() as int,
                ),
            None => !is_prefixed(name@),
        },
{
    let n = name.unicode_len();
    let first = find_sep(name, n, 0);
    if first >= n {
        proof {
            assert forall|k: int| !splits_at(name@, k) by {
                if splits_at(name@, k) {
                    assert(!sep_at(name@, k));
                }
            }
        }
        return None;
    }
    let next = find_sep(name, n, first + 3);
    if next < n {
        proof {
            assert forall|k: int| !splits_at(name@, k) by {
                if splits_at(name@, k) {
                    if k < first {
                        assert(!sep_at(name@, k));
                    } else if k > first {
                        assert(!sep_at(name@, first as int));
                    } else {
                        assert(!sep_at(name@, next as int));
                    }
                }
            }
        }
        return None;
    }
    assert forall|k: int| first + 3 <= k implies !#[trigger] sep_at(name@, k) by {
        if k >= n {
        }
    }
    if first == 0 || first + 3 >= n {
        proof {
            assert forall|k: int| !splits_at(name@, k) by {
                if splits_at(name@, k) {
                    if k < first {
                        assert(!sep_at(name@, k));
                    } else if k > first {
                        assert(!sep_at(name@, first as int));
                    }
                }
            }
        }
        return None;
    }
    let server = String::from_str(name.substring_char(0, first));
    let tool = String::from_str(name.substring_char(first + 3, n));
    assert(splits_at(name@, first as int));
    Some((server, tool))
}

/// An aggregated name splits back into the server and tool it was built from,
/// whenever both are plain names.
pub proof fn lemma_qualified_splits(server: Seq<char>, tool: Seq<char>)
    requires
        plain_server_name(server),
        plain_tool_name(tool),
    ensures
        splits_at(qualified(server, tool), server.len() as int),
        qualified(server, tool).subrange(0, server.len() as int) == server,
        qualified(server, tool).subrange(server.len() as int + 3, qualified(server, tool).len() as int)
            == tool,
{
    let s = qualified(server, tool);
    let n = server.len() as int;
    assert(s.len() == n + 3 + tool.len());
    assert forall|k: int| 0 <= k < n implies !#[trigger] sep_at(s, k) by {
        if sep_at(s, k) {
            if k + 3 <= n {
                assert(sep_at(server, k));
            } else {
                assert(s[n - 1] == server.last());
            }
        }
    }
    assert forall|k: int| n + 3 <= k implies !#[trigger] sep_at(s, k) by {
        if sep_at(s, k) {
            assert(sep_at(tool, k - n - 3));
        }
    }
    assert(s.subrange(0, n) =~= server);
    assert(s.subrange(n + 3, s.len() as int) =~= tool);
}

/// When the server name holds no separator and does not end in `-`, the
/// first separator of an aggregated name is the one placed after it, so the
/// text before the first separator is the server name.
pub proof fn lemma_first_sep_after_server(server: Seq<char>, tool: Seq<char>)
    requires
        !contains_sep(server),
        server.len() == 0 || server.last() != '-',
    ensures
        sep_at(qualified(server, tool), server.len() as int),
        forall|k: int|
            0 <= k < server.len() ==> !#[trigger] sep_at(qualified(server, tool), k),
        qualified(server, tool).subrange(0, server.len() as int) == server,
{
    let s = qualified(server, tool);
    let n = server.len() as int;
    assert forall|k: int| 0 <= k < n implies !#[trigger] sep_at(s, k) by {
        if sep_at(s, k) {
            if k + 3 <= n {
                assert(sep_at(server, k));
            } else {
                assert(s[n - 1] == server.last());
            }
        }
    }
    assert(s.subrange(0, n) =~= server);
}

} // verus!
