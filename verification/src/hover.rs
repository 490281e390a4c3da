//! The hover text for a function, written in Markdown from the description
//! the server gives of it.
use vstd::prelude::*;
use crate::json::{json_as_array, json_as_str, json_index, Json};
use crate::paths::texts;
use crate::text::{concat2, concat3};

verus! {

/// The text of string member `key`, empty when there is none.
pub open spec fn str_or_empty(j: Json, key: Seq<char>) -> Seq<char> {
    match json_as_str(json_index(j, key)) {
        Some(s) => s,
        None => Seq::empty(),
    }
}

/// The line for one argument: its name, type and description; none for an
/// argument without a name.
pub open spec fn argument_line(arg: Json) -> Option<Seq<char>> {
    let name = str_or_empty(arg, "name"@);
    if name.len() == 0 {
        None
    } else {
        Some("**$"@ + name + "** *"@ + str_or_empty(arg, "type"@) + "* "@ + str_or_empty(arg, "description"@))
    }
}

/// The lines for the arguments, in order.
pub open spec fn argument_lines(args: Seq<Json>) -> Seq<Seq<char>>
    decreases args.len(),
{
    if args.len() == 0 {
        Seq::empty()
    } else {
        let rest = argument_lines(args.drop_last());
        match argument_line(args.last()) {
            Some(l) => rest.push(l),
            None => rest,
        }
    }
}

/// The paragraphs of the hover text: the signature in bold (with the return
/// type when one is given), the description when there is one, and a line per
/// named argument; none when the description has no `text`.
pub open spec fn hover_paragraphs(desc: Json) -> Option<Seq<Seq<char>>> {
    match json_as_str(json_index(desc, "text"@)) {
        None => None,
        Some(sig) => {
            let ret = str_or_empty(desc, "leftLabel"@);
            let first = if ret.len() > 0 {
                "**"@ + sig + "** as **"@ + ret + "**"@
            } else {
                "**"@ + sig + "**"@
            };
            let doc = str_or_empty(desc, "description"@);
            let docs = if doc.len() > 0 {
                seq![doc]
            } else {
                Seq::empty()
            };
            let args = match json_as_array(json_index(desc, "arguments"@)) {
                Some(items) => argument_lines(items),
                None => Seq::empty(),
            };
            Some(seq![first] + docs + args)
        },
    }
}

/// The pieces joined, `sep` between each two.
pub open spec fn join_with(parts: Seq<Seq<char>>, sep: Seq<char>) -> Seq<char>
    decreases parts.len(),
{
    if parts.len() == 0 {
        Seq::empty()
    } else if parts.len() == 1 {
        parts[0]
    } else {
        join_with(parts.drop_last(), sep) + sep + parts.last()
    }
}

/// The hover text: the paragraphs separated by blank lines.
pub open spec fn hover_markdown_spec(desc: Json) -> Option<Seq<char>> {
    match hover_paragraphs(desc) {
        None => None,
        Some(ps) => Some(join_with(ps, "\n\n"@)),
    }
}

fn str_member_or_empty(j: &Json, key: &str) -> (r: String)
    ensures
        r@ == str_or_empty(*j, key@),
{
    match j.str_member(key) {
        Some(s) => s.clone(),
        None => String::new(),
    }
}

/// The hover text for a function description.
pub fn hover_markdown(desc: &Json) -> (r: Option<String>)
    ensures
        match hover_markdown_spec(*desc) {
            None => r is None,
            Some(t) => r matches Some(s) && s@ == t,
        },
{
    let sig = match desc.str_member("text") {
        None => return None,
        Some(s) => s,
    };
    let mut md: Vec<String> = Vec::new();
    let ret = str_member_or_empty(desc, "leftLabel");
    let first = if !ret.as_str().is_empty() {
        let a = concat3("**", sig.as_str(), "** as **");
        concat3(a.as_str(), ret.as_str(), "**")
    } else {
        concat3("**", sig.as_str(), "**")
    };
    md.push(first);
    let doc = str_member_or_empty(desc, "description");
    if !doc.as_str().is_empty() {
        md.push(doc);
    }
    let ghost head = texts(md@);
    let ghost args_spec: Seq<Json> = match json_as_array(json_index(*desc, "arguments"@)) {
        Some(items) => items,
        None => Seq::empty(),
    };
    proof {
        assert(head =~= seq![first@] + (if doc@.len() > 0 { seq![doc@] } else { Seq::<Seq<char>>::empty() }));
    }
    match desc.get("arguments") {
        Some(a) => match a.as_array() {
            Some(items) => {
                let mut i: usize = 0;
                while i < items.len()
                    invariant
                        i <= items.len(),
                        items@ == args_spec,
                        texts(md@) == head + argument_lines(args_spec.take(i as int)),
                    decreases items.len() - i,
                {
                    let arg = &items[i];
                    let name = str_member_or_empty(arg, "name");
                    proof {
                        assert(args_spec.take(i + 1).drop_last() =~= args_spec.take(i as int));
                        assert(args_spec.take(i + 1).last() == *arg);
                    }
                    if !name.as_str().is_empty() {
                        let ty = str_member_or_empty(arg, "type");
                        let d = str_member_or_empty(arg, "description");
                        let a1 = concat3("**$", name.as_str(), "** *");
                        let a2 = concat3(a1.as_str(), ty.as_str(), "* ");
                        let line = concat2(a2.as_str(), d.as_str());
                        let ghost before = md@;
                        md.push(line);
                        proof {
                            assert(texts(md@) =~= texts(before).push(line@));
                        }
                    }
                    i += 1;
                }
                proof {
                    assert(args_spec.take(items.len() as int) =~= args_spec);
                }
            },
            None => {
                proof {
                    assert(head + argument_lines(Seq::empty()) =~= head);
                }
            },
        },
        None => {
            proof {
                assert(head + argument_lines(Seq::empty()) =~= head);
            }
        },
    }
    let ghost ps = texts(md@);
    // Join with blank lines.
    let mut out = String::new();
    let mut k: usize = 0;
    while k < md.len()
        invariant
            k <= md.len(),
            ps == texts(md@),
            out@ == join_with(ps.take(k as int), "\n\n"@),
        decreases md.len() - k,
    {
        proof {
            assert(ps.take(k + 1).drop_last() =~= ps.take(k as int));
            assert(ps.take(k + 1).last() == md@[k as int]@);
        }
        if k > 0 {
            out.append("\n\n");
        } else {
            proof {
                assert(out@ =~= Seq::<char>::empty());
            }
        }
        out.append(md[k].as_str());
        proof {
            if k == 0 {
                assert(out@ =~= ps.take(1)[0]);
            }
        }
        k += 1;
    }
    proof {
        assert(ps.take(md.len() as int) =~= ps);
    }
    Some(out)
}

/// The first description in the server's answer: its first item when it is a
/// non-empty array.
pub open spec fn first_entry_spec(answer: Option<Json>) -> Option<Json> {
    match answer {
        Some(Json::Array { items, .. }) => if items@.len() > 0 {
            Some(items@[0])
        } else {
            None
        },
        _ => None,
    }
}

/// The first description in the server's answer.
pub fn first_entry(answer: Option<Json>) -> (r: Option<Json>)
    ensures
        r == first_entry_spec(answer),
{
    match answer {
        Some(Json::Array { items, .. }) => {
            let mut items = items;
            if items.len() == 0 {
                None
            } else {
                Some(items.swap_remove(0))
            }
        },
        _ => None,
    }
}

/// The hover text from the server's answer about a function.
pub fn hover_contents(answer: Option<Json>) -> (r: Option<String>)
    ensures
        match first_entry_spec(answer) {
            None => r is None,
            Some(desc) => match hover_markdown_spec(desc) {
                None => r is None,
                Some(t) => r matches Some(s) && s@ == t,
            },
        },
{
    match first_entry(answer) {
        None => None,
        Some(desc) => hover_markdown(&desc),
    }
}

} // verus!

verus! {

/// The argument lines follow the order of the arguments: the lines of two
/// runs of arguments, one after the other, are those of the first run
/// followed by those of the second.
pub proof fn law_argument_lines_in_order(s: Seq<Json>, t: Seq<Json>)
    ensures
        argument_lines(s + t) == argument_lines(s) + argument_lines(t),
    decreases t.len(),
{
    if t.len() == 0 {
        assert(s + t =~= s);
        assert(argument_lines(s) + argument_lines(t) =~= argument_lines(s));
    } else {
        law_argument_lines_in_order(s, t.drop_last());
        assert((s + t).drop_last() =~= s + t.drop_last());
        assert((s + t).last() == t.last());
        let rs = argument_lines(s);
        let rt = argument_lines(t.drop_last());
        match argument_line(t.last()) {
            Some(l) => {
                assert((rs + rt).push(l) =~= rs + rt.push(l));
            },
            None => {},
        }
    }
}

/// One argument with a name gives one line: `**$name** *type* description`;
/// one without a name gives none.
pub proof fn law_one_argument_line(a: Json)
    ensures
        str_or_empty(a, "name"@).len() > 0 ==> argument_lines(seq![a]) == seq![
            "**$"@ + str_or_empty(a, "name"@) + "** *"@ + str_or_empty(a, "type"@) + "* "@ + str_or_empty(a, "description"@),
        ],
        str_or_empty(a, "name"@).len() == 0 ==> argument_lines(seq![a]).len() == 0,
{
    assert(seq![a].drop_last() =~= Seq::<Json>::empty());
    assert(seq![a].last() == a);
    assert(argument_lines(Seq::<Json>::empty()) =~= Seq::<Seq<char>>::empty());
}

/// The hover text is made of the bold signature (with its return type), the
/// description when there is one, and then the argument lines in order.
pub proof fn law_hover_layout(desc: Json, sig: Seq<char>, args: Seq<Json>)
    requires
        json_as_str(json_index(desc, "text"@)) == Some(sig),
        json_as_array(json_index(desc, "arguments"@)) == Some(args),
    ensures
        hover_paragraphs(desc) is Some,
        ({
            let ps = hover_paragraphs(desc)->0;
            let ret = str_or_empty(desc, "leftLabel"@);
            let doc = str_or_empty(desc, "description"@);
            let n = if doc.len() > 0 { 2int } else { 1int };
            &&& ps[0] == (if ret.len() > 0 {
                "**"@ + sig + "** as **"@ + ret + "**"@
            } else {
                "**"@ + sig + "**"@
            })
            &&& doc.len() > 0 ==> ps[1] == doc
            &&& ps.skip(n) == argument_lines(args)
        }),
{
    let ps = hover_paragraphs(desc)->0;
    let doc = str_or_empty(desc, "description"@);
    let n = if doc.len() > 0 { 2int } else { 1int };
    assert(ps.skip(n) =~= argument_lines(args));
}

} // verus!

verus! {

/// Joining keeps the pieces in order with one separator between each two:
/// joining two non-empty runs is joining each and putting the separator
/// between, and one piece alone is itself.
pub proof fn law_join_in_order(a: Seq<Seq<char>>, b: Seq<Seq<char>>, sep: Seq<char>)
    requires
        a.len() > 0,
        b.len() > 0,
    ensures
        join_with(a + b, sep) == join_with(a, sep) + sep + join_with(b, sep),
        join_with(seq![a[0]], sep) == a[0],
    decreases b.len(),
{
    if b.len() == 1 {
        assert((a + b).drop_last() =~= a);
        assert((a + b).last() == b[0]);
    } else {
        law_join_in_order(a, b.drop_last(), sep);
        assert((a + b).drop_last() =~= a + b.drop_last());
        assert((a + b).last() == b.last());
        assert(join_with(a, sep) + sep + join_with(b.drop_last(), sep) + sep + b.last() =~= join_with(a, sep) + sep
            + (join_with(b.drop_last(), sep) + sep + b.last()));
    }
}

/// The hover text is its paragraphs separated by one blank line each.
pub proof fn law_paragraphs_separated_by_blank_lines(desc: Json)
    ensures
        hover_paragraphs(desc) is None ==> hover_markdown_spec(desc) is None,
        hover_paragraphs(desc) matches Some(ps) ==> hover_markdown_spec(desc) == Some(join_with(ps, "\n\n"@)),
{
}

} // verus!
