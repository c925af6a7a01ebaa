//! Table-of-contents entries: where a document's file lands under the
//! output root, and the indented link line it contributes.

use vstd::prelude::*;

use crate::options::{Options, OptionsV};
use crate::strutil::{chars_of, push_char, replace_all, replace_all_spec, seg, str_eq};
use crate::types::{Class, rfind_char, lemma_rfind_char};

verus! {

/// One table-of-contents line: the directory part of the document's
/// path, its file name, and the rendered link line.
pub struct TocEntry {
    pub file_path: String,
    pub file_name: String,
    pub link: String,
}

/// `n` copies of the two-space indent.
pub open spec fn indent(n: nat) -> Seq<char>
    decreases n,
{
    if n == 0 {
        Seq::empty()
    } else {
        indent((n - 1) as nat) + "  "@
    }
}

/// How many `/` separators the name holds.
pub open spec fn count_slashes(s: Seq<char>) -> int
    decreases s.len(),
{
    if s.len() == 0 {
        0
    } else {
        (if s.last() == '/' {
            1int
        } else {
            0int
        }) + count_slashes(s.drop_last())
    }
}

/// The directory part of a slashed name: everything up to and
/// including its last `/`.
pub open spec fn slash_dir(s: Seq<char>) -> Seq<char> {
    s.subrange(0, rfind_char(s, '/') + 1)
}

/// The leaf of a slashed name: everything after its last `/`.
pub open spec fn slash_leaf(s: Seq<char>) -> Seq<char> {
    s.subrange(rfind_char(s, '/') + 1, s.len() as int)
}

/// The pieces of a table-of-contents entry for a document name: its
/// indentation level, display name, directory part and file name.
///
/// A name with `/` separators files under its directory, one indent
/// step per path segment.  A name inside the configured namespace files
/// under the namespace directory, shown without the namespace prefix.
/// Everything else stays at the top level, with the fixed sections
/// shown under friendly labels.
pub open spec fn toc_pieces(name: Seq<char>, opts: OptionsV) -> (Seq<char>, Seq<char>, Seq<
    char,
>, Seq<char>) {
    if rfind_char(name, '/') >= 0 {
        (
            indent((count_slashes(name) + 1) as nat),
            slash_leaf(name),
            slash_dir(name),
            slash_leaf(name),
        )
    } else if Class::spec_belongs_to_namespace(name, opts.namespace) {
        if name == opts.namespace {
            (indent(1), name, Seq::empty(), name)
        } else {
            (
                indent(2),
                replace_all_spec(name, opts.namespace + "."@, Seq::empty()),
                opts.namespace + "/"@,
                name,
            )
        }
    } else {
        (
            indent(1),
            if name == "builtins"@ {
                "Builtin Types"@
            } else if name == "modules"@ {
                "Module Extensions"@
            } else if name == "structs"@ {
                "Helper Types"@
            } else if name == "global"@ {
                "Globals"@
            } else {
                name
            },
            Seq::empty(),
            name,
        )
    }
}

/// The rendered link line of a table-of-contents entry.
pub open spec fn toc_link(name: Seq<char>, opts: OptionsV) -> Seq<char> {
    let (level, display, path, file) = toc_pieces(name, opts);
    level + "- ["@ + display + "](API/"@ + path + file + ".md)"@
}

/// `n` copies of the two-space indent.
fn indent_exec(n: usize) -> (r: String)
    ensures
        r@ == indent(n as nat),
{
    let mut r = String::new();
    let mut i: usize = 0;
    while i < n
        invariant
            i <= n,
            r@ == indent(i as nat),
        decreases n - i,
    {
        r.append("  ");
        i = i + 1;
    }
    r
}

impl TocEntry {
    /// The table-of-contents entry for a document name.
    pub fn from(name: &str, options: &Options) -> (r: TocEntry)
        ensures
            r.file_path@ == toc_pieces(name@, options@).2,
            r.file_name@ == toc_pieces(name@, options@).3,
            r.link@ == toc_link(name@, options@),
    {
        let v = chars_of(name);
        let n = v.len();
        proof {
            lemma_rfind_char(name@, '/');
        }
        // find the last separator, counting all of them
        let mut slashes: usize = 0;
        let mut last: Option<usize> = Option::None;
        let mut i: usize = 0;
        while i < n
            invariant
                n == v@.len(),
                v@ == name@,
                i <= n,
                slashes <= i,
                slashes == count_slashes(name@.subrange(0, i as int)),
                match last {
                    Option::Some(p) => p < i && name@[p as int] == '/' && (forall|q: int|
                        p < q < i ==> name@[q] != '/'),
                    Option::None => forall|q: int| 0 <= q < i ==> name@[q] != '/',
                },
            decreases n - i,
        {
            let ghost pfx1 = name@.subrange(0, i + 1 as int);
            proof {
                assert(pfx1.drop_last() =~= name@.subrange(0, i as int));
                assert(pfx1.last() == name@[i as int]);
            }
            if v[i] == '/' {
                slashes = slashes + 1;
                last = Option::Some(i);
            }
            i = i + 1;
        }
        proof {
            assert(name@.subrange(0, n as int) =~= name@);
            match last {
                Option::Some(p) => {
                    assert(rfind_char(name@, '/') == p) by {
                        let w = rfind_char(name@, '/');
                        if w > p {
                            assert(name@[w] != '/');
                        }
                        if w < p {
                            assert(name@[p as int] != '/');
                        }
                    }
                },
                Option::None => {
                    assert(rfind_char(name@, '/') == -1) by {
                        let w = rfind_char(name@, '/');
                        if w >= 0 {
                            assert(name@[w] != '/');
                        }
                    }
                },
            }
        }
        let (level, display, file_path, file_name): (String, String, String, String) = match last
            {
            Option::Some(p) => {
                let leaf = seg(&v, p + 1, n);
                let dir = seg(&v, 0, p + 1);
                let mut lvl = indent_exec(slashes);
                lvl.append("  ");
                proof {
                    assert(count_slashes(name@) == slashes as int);
                    assert(((slashes + 1) as nat) - 1 == slashes as nat);
                    assert(indent((slashes + 1) as nat) == indent(slashes as nat) + "  "@);
                    assert(lvl@ == indent((count_slashes(name@) + 1) as nat));
                }
                (lvl, leaf.clone(), dir, leaf)
            },
            Option::None => {
                if Class::belongs_to_namespace(name, options.namespace.as_str()) {
                    if str_eq(name, options.namespace.as_str()) {
                        (
                            indent_exec(1),
                            name.to_owned(),
                            String::new(),
                            name.to_owned(),
                        )
                    } else {
                        let mut pat = options.namespace.clone();
                        pat.append(".");
                        proof {
                            assert(pat@.len() > 0);
                        }
                        let display = replace_all(name, pat.as_str(), "");
                        let mut dir = options.namespace.clone();
                        dir.append("/");
                        (indent_exec(2), display, dir, name.to_owned())
                    }
                } else {
                    let display: String = if str_eq(name, "builtins") {
                        String::from_str("Builtin Types")
                    } else if str_eq(name, "modules") {
                        String::from_str("Module Extensions")
                    } else if str_eq(name, "structs") {
                        String::from_str("Helper Types")
                    } else if str_eq(name, "global") {
                        String::from_str("Globals")
                    } else {
                        name.to_owned()
                    };
                    (indent_exec(1), display, String::new(), name.to_owned())
                }
            },
        };
        proof {
            reveal_strlit("");
            assert(""@ =~= Seq::<char>::empty());
            assert(level@ == toc_pieces(name@, options@).0);
            assert(display@ == toc_pieces(name@, options@).1);
            assert(file_path@ == toc_pieces(name@, options@).2);
            assert(file_name@ == toc_pieces(name@, options@).3);
        }
        let mut link = level;
        link.append("- [");
        link.append(display.as_str());
        link.append("](API/");
        link.append(file_path.as_str());
        link.append(file_name.as_str());
        link.append(".md)");
        proof {
            reveal_strlit("");
            assert(link@ =~= toc_link(name@, options@));
        }
        TocEntry { file_path, file_name, link }
    }
}

/// The lines with the given range replaced by the links: what splicing
/// a fresh table of contents into a host document's line list does.
pub fn splice_lines(lines: &Vec<String>, start: usize, end: usize, links: &Vec<String>) -> (r:
    Vec<String>)
    requires
        start < end <= lines@.len(),
    ensures
        crate::strutil::strs_view(r@) == crate::strutil::strs_view(lines@).subrange(
            0,
            start + 1,
        ) + crate::strutil::strs_view(links@) + crate::strutil::strs_view(lines@).subrange(
            end as int,
            lines@.len() as int,
        ),
{
    let mut r: Vec<String> = Vec::new();
    let mut i: usize = 0;
    while i < start + 1
        invariant
            start < end <= lines@.len(),
            i <= start + 1,
            r@.len() == i,
            forall|p: int| 0 <= p < i ==> r@[p] == lines@[p],
        decreases start + 1 - i,
    {
        let x = lines[i].clone();
        r.push(x);
        i = i + 1;
    }
    let mut j: usize = 0;
    while j < links.len()
        invariant
            start < end <= lines@.len(),
            j <= links@.len(),
            r@.len() == start + 1 + j,
            forall|p: int| 0 <= p < start + 1 ==> r@[p] == lines@[p],
            forall|p: int| 0 <= p < j ==> r@[start + 1 + p] == links@[p],
        decreases links@.len() - j,
    {
        let x = links[j].clone();
        r.push(x);
        j = j + 1;
    }
    let mut k: usize = end;
    while k < lines.len()
        invariant
            start < end <= k <= lines@.len(),
            r@.len() == start + 1 + links@.len() + (k - end),
            forall|p: int| 0 <= p < start + 1 ==> r@[p] == lines@[p],
            forall|p: int| 0 <= p < links@.len() ==> r@[start + 1 + p] == #[trigger] links@[p],
            forall|p: int| 0 <= p < k - end ==> #[trigger] r@[start + 1 + links@.len() + p]
                == lines@[end + p],
        decreases lines@.len() - k,
    {
        let x = lines[k].clone();
        r.push(x);
        k = k + 1;
    }
    proof {
        let target = crate::strutil::strs_view(lines@).subrange(0, start + 1)
            + crate::strutil::strs_view(links@) + crate::strutil::strs_view(lines@).subrange(
            end as int,
            lines@.len() as int,
        );
        assert(r@.len() == start + 1 + links@.len() + (lines@.len() - end));
        assert(crate::strutil::strs_view(r@).len() == r@.len());
        assert(target.len() == r@.len());
        assert forall|p: int| 0 <= p < crate::strutil::strs_view(r@).len()
            implies crate::strutil::strs_view(r@)[p] == target[p] by {
            assert(crate::strutil::strs_view(r@)[p] == r@[p]@);
            if p < start + 1 {
                assert(r@[p] == lines@[p]);
                assert(crate::strutil::strs_view(lines@)[p] == lines@[p]@);
                assert(target[p] == crate::strutil::strs_view(lines@).subrange(0, start + 1)[p]);
            } else if p < start + 1 + links@.len() {
                assert(r@[p] == links@[p - (start + 1)]);
                assert(crate::strutil::strs_view(links@)[p - (start + 1)] == links@[p - (start
                    + 1)]@);
            } else {
                let q = p - (start + 1) - links@.len();
                assert(r@[start + 1 + links@.len() + q] == lines@[end + q]);
                assert(r@[p] == lines@[end + q]);
                assert(crate::strutil::strs_view(lines@)[end + q] == lines@[end + q]@);
            }
        }
        assert(crate::strutil::strs_view(r@) =~= target);
    }
    r
}

} // verus!
