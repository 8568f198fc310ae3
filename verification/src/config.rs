//! Validation of a tag configuration: deduplicating the declared tag
//! list and resolving every alias to the indices of the tags it names.

use vstd::prelude::*;
use vstd::string::StrSliceExecFns;
use vstd::string::StringExecFns;

verus! {

/// Index of a tag in a validated configuration's tag list.
pub type TagIndex = usize;

/// A configuration as read from the declarative file: the declared tags,
/// and aliases, each naming a list of tags.
#[derive(Debug, Clone)]
pub struct ParsedConfig {
    pub tags: Vec<String>,
    pub aliases: Vec<(String, Vec<String>)>,
}

/// A validated configuration: tags sorted and deduplicated, every alias
/// resolved to tag indices, and the path of the database derived from
/// the configuration file's path.
#[derive(Debug)]
pub struct Config {
    pub tags: Vec<String>,
    pub aliases: Vec<(String, Vec<TagIndex>)>,
    pub database_path: String,
}

#[derive(Debug, Clone, PartialEq, Eq)]
pub enum ConfigValidationError {
    UnknownTag { name: String },
}

/// Strict lexicographic order on character sequences, by code point. On
/// UTF-8 text it agrees with the byte-wise order of the encodings.
pub open spec fn lex_lt(a: Seq<char>, b: Seq<char>) -> bool
    decreases a.len(),
{
    if b.len() == 0 {
        false
    } else if a.len() == 0 {
        true
    } else if a[0] != b[0] {
        (a[0] as u32) < (b[0] as u32)
    } else {
        lex_lt(a.drop_first(), b.drop_first())
    }
}

/// `lex_lt` is total: two sequences are ordered one way or the other, or
/// they are equal.
pub proof fn lemma_lex_total(a: Seq<char>, b: Seq<char>)
    ensures
        lex_lt(a, b) || lex_lt(b, a) || a == b,
    decreases a.len(),
{
    if a.len() == 0 && b.len() == 0 {
        assert(a =~= b);
    } else if a.len() > 0 && b.len() > 0 && a[0] == b[0] {
        lemma_lex_total(a.drop_first(), b.drop_first());
        if a.drop_first() == b.drop_first() {
            assert(a.drop_first().len() == a.len() - 1);
            assert(b.drop_first().len() == b.len() - 1);
            assert(a.len() == b.len());
            assert forall|i: int| 0 <= i < a.len() implies a[i] == b[i] by {
                if i > 0 {
                    assert(a[i] == a.drop_first()[i - 1]);
                    assert(b[i] == b.drop_first()[i - 1]);
                }
            }
            assert(a =~= b);
        }
    } else if a.len() > 0 && b.len() > 0 {
        vstd::utf8::char_u32_cast(a[0], a[0] as u32);
        vstd::utf8::char_u32_cast(b[0], b[0] as u32);
    }
}

/// `lex_lt` is transitive.
pub proof fn lemma_lex_trans(a: Seq<char>, b: Seq<char>, c: Seq<char>)
    requires
        lex_lt(a, b),
        lex_lt(b, c),
    ensures
        lex_lt(a, c),
    decreases a.len(),
{
    if a.len() > 0 && b.len() > 0 && c.len() > 0 && a[0] == b[0] && b[0] == c[0] {
        lemma_lex_trans(a.drop_first(), b.drop_first(), c.drop_first());
    }
}

/// Executable decision of `lex_lt` on the views of two strings.
pub fn str_lt(a: &str, b: &str) -> (r: bool)
    ensures
        r == lex_lt(a@, b@),
{
    let na = a.unicode_len();
    let nb = b.unicode_len();
    proof {
        assert(a@.skip(0) =~= a@);
        assert(b@.skip(0) =~= b@);
    }
    let mut i: usize = 0;
    loop
        invariant
            i <= na,
            i <= nb,
            na == a@.len(),
            nb == b@.len(),
            lex_lt(a@, b@) == lex_lt(a@.skip(i as int), b@.skip(i as int)),
        decreases na - i,
    {
        if i >= nb {
            return false;
        }
        if i >= na {
            return true;
        }
        let ca = a.get_char(i);
        let cb = b.get_char(i);
        if ca != cb {
            return (ca as u32) < (cb as u32);
        }
        proof {
            assert(a@.skip(i as int).drop_first() =~= a@.skip(i + 1));
            assert(b@.skip(i as int).drop_first() =~= b@.skip(i + 1));
        }
        i = i + 1;
    }
}

/// The tag list holds names in strictly increasing order, hence no name
/// twice.
pub open spec fn sorted_unique(v: Seq<String>) -> bool {
    forall|i: int, j: int| 0 <= i < j < v.len() ==> lex_lt((#[trigger] v[i])@, (#[trigger] v[j])@)
}

/// `name` occurs in the list `v`.
pub open spec fn has_name(v: Seq<String>, name: Seq<char>) -> bool {
    exists|i: int| 0 <= i < v.len() && (#[trigger] v[i])@ == name
}

/// First position in the sorted list `tags` whose entry is not below
/// `name`.
fn lower_bound(tags: &Vec<String>, name: &String) -> (r: usize)
    ensures
        r <= tags@.len(),
        forall|j: int| 0 <= j < r ==> lex_lt((#[trigger] tags@[j])@, name@),
        r < tags@.len() ==> !lex_lt(tags@[r as int]@, name@),
{
    let mut i: usize = 0;
    loop
        invariant
            i <= tags@.len(),
            forall|j: int| 0 <= j < i ==> lex_lt((#[trigger] tags@[j])@, name@),
        decreases tags@.len() - i,
    {
        if i >= tags.len() {
            return i;
        }
        if !str_lt(tags[i].as_str(), name.as_str()) {
            return i;
        }
        i = i + 1;
    }
}

/// Sorts the tag names and removes duplicates: the result holds exactly
/// the names of the input, each once, in increasing lexicographic order.
pub fn sort_dedup(tags: &Vec<String>) -> (r: Vec<String>)
    ensures
        sorted_unique(r@),
        forall|i: int| 0 <= i < r@.len() ==> has_name(tags@, (#[trigger] r@[i])@),
        forall|i: int| 0 <= i < tags@.len() ==> has_name(r@, (#[trigger] tags@[i])@),
{
    let mut out: Vec<String> = Vec::new();
    let mut ti: usize = 0;
    loop
        invariant
            ti <= tags@.len(),
            sorted_unique(out@),
            forall|i: int| 0 <= i < out@.len() ==> has_name(tags@, (#[trigger] out@[i])@),
            forall|i: int| 0 <= i < ti ==> has_name(out@, (#[trigger] tags@[i])@),
        decreases tags@.len() - ti,
    {
        if ti >= tags.len() {
            return out;
        }
        let name = tags[ti].clone();
        let pos = lower_bound(&out, &name);
        let mut known = false;
        if pos < out.len() {
            known = out[pos].eq(&name);
        }
        if known {
            proof {
                assert(has_name(out@, tags@[ti as int]@));
            }
        } else {
            let ghost old_out = out@;
            proof {
                assert forall|j: int| pos <= j < old_out.len() implies lex_lt(
                    name@,
                    (#[trigger] old_out[j])@,
                ) by {
                    lemma_lex_total(old_out[pos as int]@, name@);
                    if j > pos {
                        lemma_lex_trans(name@, old_out[pos as int]@, old_out[j]@);
                    }
                }
            }
            out.insert(pos, name);
            proof {
                let v = out@;
                assert forall|i: int, j: int| 0 <= i < j < v.len() implies lex_lt(
                    (#[trigger] v[i])@,
                    (#[trigger] v[j])@,
                ) by {
                    if i < pos {
                        assert(v[i] == old_out[i]);
                    } else if i > pos {
                        assert(v[i] == old_out[i - 1]);
                    }
                    if j < pos {
                        assert(v[j] == old_out[j]);
                    } else if j > pos {
                        assert(v[j] == old_out[j - 1]);
                    }
                }
                assert forall|i: int| 0 <= i < v.len() implies has_name(
                    tags@,
                    (#[trigger] v[i])@,
                ) by {
                    if i < pos {
                        assert(v[i] == old_out[i]);
                    } else if i > pos {
                        assert(v[i] == old_out[i - 1]);
                    } else {
                        assert(v[i]@ == tags@[ti as int]@);
                    }
                }
                assert forall|i: int| 0 <= i < ti + 1 implies has_name(
                    v,
                    (#[trigger] tags@[i])@,
                ) by {
                    if i < ti {
                        let w = choose|w: int|
                            0 <= w < old_out.len() && (#[trigger] old_out[w])@ == tags@[i]@;
                        if w < pos {
                            assert(v[w] == old_out[w]);
                        } else {
                            assert(v[w + 1] == old_out[w]);
                        }
                    } else {
                        assert(v[pos as int]@ == tags@[i]@);
                    }
                }
            }
        }
        ti = ti + 1;
    }
}

/// Position of `name` in the tag list, if it occurs there.
fn find_tag(tags: &Vec<String>, name: &String) -> (r: Option<TagIndex>)
    ensures
        match r {
            Some(i) => i < tags@.len() && tags@[i as int]@ == name@,
            None => !has_name(tags@, name@),
        },
{
    let mut i: usize = 0;
    loop
        invariant
            i <= tags@.len(),
            forall|k: int| 0 <= k < i ==> (#[trigger] tags@[k])@ != name@,
        decreases tags@.len() - i,
    {
        if i >= tags.len() {
            return None;
        }
        if tags[i].eq(name) {
            return Some(i);
        }
        i = i + 1;
    }
}

/// Index `idx` points at the tag called `name`.
pub open spec fn resolves_name(tags: Seq<String>, idx: TagIndex, name: String) -> bool {
    idx < tags.len() && tags[idx as int]@ == name@
}

/// The resolved alias `out` carries the same name as the declared alias
/// `src` and one index per named tag, each pointing at that tag.
pub open spec fn resolves_alias(
    tags: Seq<String>,
    out: (String, Vec<TagIndex>),
    src: (String, Vec<String>),
) -> bool {
    &&& out.0@ == src.0@
    &&& out.1@.len() == src.1@.len()
    &&& forall|k: int|
        0 <= k < out.1@.len() ==> resolves_name(tags, #[trigger] out.1@[k], src.1@[k])
}

/// The first name from position `k` on of `names` that is not a declared
/// tag, if any.
pub open spec fn first_unknown_name_from(names: Seq<String>, tags: Seq<String>, k: int) -> Option<
    Seq<char>,
>
    decreases names.len() - k,
{
    if k < 0 || k >= names.len() {
        None
    } else if !has_name(tags, names[k]@) {
        Some(names[k]@)
    } else {
        first_unknown_name_from(names, tags, k + 1)
    }
}

/// The first name of an alias, from alias `j` on, that is not a declared
/// tag, if any — in declaration order.
pub open spec fn first_unknown_from(
    aliases: Seq<(String, Vec<String>)>,
    tags: Seq<String>,
    j: int,
) -> Option<Seq<char>>
    decreases aliases.len() - j,
{
    if j < 0 || j >= aliases.len() {
        None
    } else if first_unknown_name_from(aliases[j].1@, tags, 0) is Some {
        first_unknown_name_from(aliases[j].1@, tags, 0)
    } else {
        first_unknown_from(aliases, tags, j + 1)
    }
}

/// The first alias member that names no declared tag, in declaration
/// order, if any. Validation fails exactly on this name.
pub open spec fn first_unknown(aliases: Seq<(String, Vec<String>)>, tags: Seq<String>) -> Option<
    Seq<char>,
> {
    first_unknown_from(aliases, tags, 0)
}

/// Index right after the last path separator of `p`; 0 if `p` has none.
pub open spec fn file_name_start(p: Seq<char>) -> int
    decreases p.len(),
{
    if p.len() == 0 {
        0
    } else if p[p.len() - 1] == '/' {
        p.len() as int
    } else {
        file_name_start(p.drop_last())
    }
}

/// Position of the dot that begins the extension of `p`'s final segment:
/// the last dot strictly after `lo`, `lo` being where the segment starts
/// (a dot there begins no extension).
pub open spec fn last_dot_from(p: Seq<char>, lo: int) -> Option<int>
    decreases p.len(),
{
    if p.len() == 0 || p.len() <= lo {
        None
    } else if p[p.len() - 1] == '.' && p.len() - 1 > lo {
        Some(p.len() - 1)
    } else {
        last_dot_from(p.drop_last(), lo)
    }
}

/// The database path belonging to the configuration path `p`: `p` with
/// the extension of its final segment replaced by `db`, or with `.db`
/// appended if that segment has no extension.
pub open spec fn db_path_of(p: Seq<char>) -> Seq<char> {
    let cut = match last_dot_from(p, file_name_start(p)) {
        Some(d) => d,
        None => p.len() as int,
    };
    p.take(cut) + seq!['.', 'd', 'b']
}

proof fn lemma_file_name_start_range(p: Seq<char>)
    ensures
        0 <= file_name_start(p) <= p.len(),
    decreases p.len(),
{
    if p.len() > 0 && p[p.len() - 1] != '/' {
        lemma_file_name_start_range(p.drop_last());
    }
}

proof fn lemma_last_dot_range(p: Seq<char>, lo: int)
    requires
        0 <= lo,
    ensures
        match last_dot_from(p, lo) {
            Some(d) => lo < d < p.len(),
            None => true,
        },
    decreases p.len(),
{
    if p.len() > lo {
        if !(p[p.len() - 1] == '.' && p.len() - 1 > lo) {
            lemma_last_dot_range(p.drop_last(), lo);
        }
    }
}

fn find_name_start(s: &str) -> (r: usize)
    ensures
        r as int == file_name_start(s@),
        r <= s@.len(),
{
    let n = s.unicode_len();
    proof {
        assert(s@.take(n as int) =~= s@);
    }
    let mut i = n;
    loop
        invariant
            i <= n,
            n == s@.len(),
            file_name_start(s@) == file_name_start(s@.take(i as int)),
        decreases i,
    {
        if i == 0 {
            return 0;
        }
        let c = s.get_char(i - 1);
        if c == '/' {
            return i;
        }
        proof {
            assert(s@.take(i as int).drop_last() =~= s@.take(i - 1));
        }
        i = i - 1;
    }
}

fn find_ext_dot(s: &str, lo: usize) -> (r: Option<usize>)
    requires
        lo <= s@.len(),
    ensures
        match r {
            Some(d) => last_dot_from(s@, lo as int) == Some(d as int) && d < s@.len(),
            None => last_dot_from(s@, lo as int) is None,
        },
{
    let n = s.unicode_len();
    proof {
        assert(s@.take(n as int) =~= s@);
        lemma_last_dot_range(s@, lo as int);
    }
    let mut i = n;
    loop
        invariant
            lo <= i <= n,
            n == s@.len(),
            lo <= s@.len(),
            last_dot_from(s@, lo as int) == last_dot_from(s@.take(i as int), lo as int),
        decreases i,
    {
        if i <= lo {
            return None;
        }
        let c = s.get_char(i - 1);
        if c == '.' && i - 1 > lo {
            proof {
                lemma_last_dot_range(s@, lo as int);
            }
            return Some(i - 1);
        }
        proof {
            assert(s@.take(i as int).drop_last() =~= s@.take(i - 1));
        }
        i = i - 1;
    }
}

/// Derives the database path from the configuration file's path, as
/// `db_path_of` describes.
pub fn derive_db_path(config_path: &str) -> (r: String)
    ensures
        r@ == db_path_of(config_path@),
{
    let n = config_path.unicode_len();
    let start = find_name_start(config_path);
    let cut = match find_ext_dot(config_path, start) {
        Some(d) => d,
        None => n,
    };
    let prefix = config_path.substring_char(0, cut);
    let mut r = prefix.to_owned();
    r.append(".db");
    proof {
        reveal_strlit(".db");
        assert(".db"@ =~= seq!['.', 'd', 'b']);
        assert(config_path@.subrange(0, cut as int) =~= config_path@.take(cut as int));
        assert(r@ =~= db_path_of(config_path@));
    }
    r
}

/// Validates a parsed configuration against the path it was read from:
/// sorts and deduplicates the tag list, resolves every alias member to
/// the index of the tag it names, and derives the database path. Fails
/// with `UnknownTag` exactly when some alias member names no declared
/// tag, reporting the first such name in declaration order.
pub fn validate_config(config_path: &str, parsed: ParsedConfig) -> (r: Result<
    Config,
    ConfigValidationError,
>)
    ensures
        (r is Err) <==> first_unknown(parsed.aliases@, parsed.tags@) is Some,
        (match r {
            Result::Err(ConfigValidationError::UnknownTag { name }) => Some(name@)
                == first_unknown(parsed.aliases@, parsed.tags@),
            _ => true,
        }),
        (match r {
            Result::Ok(c) => {
                &&& sorted_unique(c.tags@)
                &&& forall|i: int|
                    0 <= i < c.tags@.len() ==> has_name(parsed.tags@, (#[trigger] c.tags@[i])@)
                &&& forall|i: int|
                    0 <= i < parsed.tags@.len() ==> has_name(
                        c.tags@,
                        (#[trigger] parsed.tags@[i])@,
                    )
                &&& c.aliases@.len() == parsed.aliases@.len()
                &&& forall|j: int|
                    0 <= j < c.aliases@.len() ==> resolves_alias(
                        c.tags@,
                        #[trigger] c.aliases@[j],
                        parsed.aliases@[j],
                    )
                &&& c.database_path@ == db_path_of(config_path@)
            },
            _ => true,
        }),
{
    let sorted = sort_dedup(&parsed.tags);
    let mut aliases_out: Vec<(String, Vec<TagIndex>)> = Vec::new();
    let mut j: usize = 0;
    while j < parsed.aliases.len()
        invariant
            j <= parsed.aliases@.len(),
            sorted_unique(sorted@),
            forall|i: int| 0 <= i < sorted@.len() ==> has_name(parsed.tags@, (#[trigger] sorted@[i])@),
            forall|i: int|
                0 <= i < parsed.tags@.len() ==> has_name(sorted@, (#[trigger] parsed.tags@[i])@),
            first_unknown(parsed.aliases@, parsed.tags@) == first_unknown_from(
                parsed.aliases@,
                parsed.tags@,
                j as int,
            ),
            aliases_out@.len() == j,
            forall|i: int|
                0 <= i < j ==> resolves_alias(
                    sorted@,
                    #[trigger] aliases_out@[i],
                    parsed.aliases@[i],
                ),
        decreases parsed.aliases@.len() - j,
    {
        let alias_name = parsed.aliases[j].0.clone();
        let names = &parsed.aliases[j].1;
        let mut idxs: Vec<TagIndex> = Vec::new();
        let mut k: usize = 0;
        while k < names.len()
            invariant
                j < parsed.aliases@.len(),
                k <= names@.len(),
                names@ == parsed.aliases@[j as int].1@,
                sorted_unique(sorted@),
                forall|i: int|
                    0 <= i < sorted@.len() ==> has_name(parsed.tags@, (#[trigger] sorted@[i])@),
                forall|i: int|
                    0 <= i < parsed.tags@.len() ==> has_name(
                        sorted@,
                        (#[trigger] parsed.tags@[i])@,
                    ),
                first_unknown(parsed.aliases@, parsed.tags@) == first_unknown_from(
                    parsed.aliases@,
                    parsed.tags@,
                    j as int,
                ),
                first_unknown_name_from(names@, parsed.tags@, 0) == first_unknown_name_from(
                    names@,
                    parsed.tags@,
                    k as int,
                ),
                idxs@.len() == k,
                forall|i: int|
                    0 <= i < k ==> resolves_name(sorted@, #[trigger] idxs@[i], names@[i]),
            decreases names@.len() - k,
        {
            match find_tag(&sorted, &names[k]) {
                Some(idx) => {
                    proof {
                        assert(has_name(parsed.tags@, names@[k as int]@));
                    }
                    idxs.push(idx);
                    k = k + 1;
                },
                None => {
                    proof {
                        assert(!has_name(parsed.tags@, names@[k as int]@)) by {
                            if has_name(parsed.tags@, names@[k as int]@) {
                                let w = choose|w: int|
                                    0 <= w < parsed.tags@.len() && (#[trigger] parsed.tags@[w])@
                                        == names@[k as int]@;
                                assert(has_name(sorted@, parsed.tags@[w]@));
                            }
                        }
                        assert(first_unknown_name_from(names@, parsed.tags@, k as int) == Some(
                            names@[k as int]@,
                        ));
                        assert(first_unknown_from(parsed.aliases@, parsed.tags@, j as int)
                            == Some(names@[k as int]@));
                    }
                    return Err(ConfigValidationError::UnknownTag { name: names[k].clone() });
                },
            }
        }
        proof {
            assert(first_unknown_name_from(names@, parsed.tags@, k as int) is None);
            assert(first_unknown_from(parsed.aliases@, parsed.tags@, j as int)
                == first_unknown_from(parsed.aliases@, parsed.tags@, j + 1));
        }
        let ghost old_aliases_out = aliases_out@;
        aliases_out.push((alias_name, idxs));
        proof {
            assert forall|i: int| 0 <= i < j + 1 implies resolves_alias(
                sorted@,
                #[trigger] aliases_out@[i],
                parsed.aliases@[i],
            ) by {
                if i < j {
                    assert(aliases_out@[i] == old_aliases_out[i]);
                }
            }
        }
        j = j + 1;
    }
    let db = derive_db_path(config_path);
    Ok(Config { tags: sorted, aliases: aliases_out, database_path: db })
}

} // verus!
