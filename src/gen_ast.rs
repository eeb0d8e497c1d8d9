use vstd::prelude::*;

use crate::text::{append_text, chars_of, copy_range, find, find_from, lemma_find, text_of, trim_text, trimmed};

verus! {

/// The declaration line of one field written `type name`: `    name: type,`.
/// A field without a space has none.
pub open spec fn field_line(f: Seq<char>) -> Option<Seq<char>> {
    let i = find(f, seq![' '], 0);
    if i < 0 {
        None
    } else {
        let j = find(f, seq![' '], i + 1);
        let name = if j < 0 {
            f.subrange(i + 1, f.len() as int)
        } else {
            f.subrange(i + 1, j)
        };
        Some("    "@ + name + ": "@ + f.subrange(0, i) + ",\n"@)
    }
}

/// The declaration lines of the fields of the list `s` separated by `, `,
/// from the field that starts at `pos`. A separator found from `pos` lies
/// at or after it (`lemma_find`): the test of that below only bounds the
/// recursion.
pub open spec fn field_lines(s: Seq<char>, pos: int) -> Option<Seq<char>>
    decreases s.len() + 1 - pos,
{
    let i = find(s, seq![',', ' '], pos);
    let piece = if i < 0 {
        s.subrange(pos, s.len() as int)
    } else {
        s.subrange(pos, i)
    };
    match field_line(piece) {
        None => None,
        Some(line) => if i < 0 {
            Some(line)
        } else if pos <= i && i + 2 <= s.len() {
            match field_lines(s, i + 2) {
                None => None,
                Some(rest) => Some(line + rest),
            }
        } else {
            None
        },
    }
}

/// The declaration of struct `name` with the fields listed in `fields`.
pub open spec fn type_declaration(name: Seq<char>, fields: Seq<char>) -> Option<Seq<char>> {
    match field_lines(fields, 0) {
        None => None,
        Some(lines) => Some("pub struct "@ + name + " {\n"@ + lines + "}\n"@),
    }
}

/// The declaration for one entry `Name : type name, type name`.
pub open spec fn entry_declaration(t: Seq<char>) -> Option<Seq<char>> {
    let i = find(t, seq![':'], 0);
    if i < 0 {
        None
    } else {
        let j = find(t, seq![':'], i + 1);
        let fields = if j < 0 {
            t.subrange(i + 1, t.len() as int)
        } else {
            t.subrange(i + 1, j)
        };
        type_declaration(trimmed(t.subrange(0, i)), trimmed(fields))
    }
}

/// The declarations of base type `base` and of each entry of `types`.
pub open spec fn ast_declarations(base: Seq<char>, types: Seq<Seq<char>>) -> Option<Seq<char>>
    decreases types.len(),
{
    if types.len() == 0 {
        Some("pub struct "@ + base + " {\n"@ + "}\n"@)
    } else {
        match ast_declarations(base, types.drop_last()) {
            None => None,
            Some(before) => match entry_declaration(types.last()) {
                None => None,
                Some(last) => Some(before + last),
            },
        }
    }
}

/// Writes the declaration line of one field, if it has a space.
fn define_field(f: &Vec<char>) -> (r: Option<String>)
    ensures
        match r {
            Some(s) => field_line(f@) == Some(s@),
            None => field_line(f@) is None,
        },
{
    let space: [char; 1] = [' '];
    assert(space@ == seq![' ']);
    let i = match find_from(f, &space, 0) {
        Some(i) => i,
        None => return None,
    };
    proof {
        lemma_find(f@, seq![' '], 0);
        assert(i + 1 <= f@.len());
        assert(f@.len() == f.len());
    }
    let name = match find_from(f, &space, i + 1) {
        Some(j) => {
            proof {
                lemma_find(f@, seq![' '], i + 1);
            }
            text_of(f, i + 1, j)
        },
        None => text_of(f, i + 1, f.len()),
    };
    let mut r = "    ".to_owned();
    append_text(&mut r, &name);
    r.append(": ");
    append_text(&mut r, &text_of(f, 0, i));
    r.append(",\n");
    Some(r)
}

/// Writes the declaration of struct `struct_name` whose fields are listed
/// in `fields` as `type name` separated by `, `. It has none where a field
/// has no space.
pub fn define_type(_base_name: &str, struct_name: &str, fields: &str) -> (r: Option<String>)
    ensures
        match r {
            Some(s) => type_declaration(struct_name@, fields@) == Some(s@),
            None => type_declaration(struct_name@, fields@) is None,
        },
{
    let s = chars_of(fields);
    let comma: [char; 2] = [',', ' '];
    assert(comma@ == seq![',', ' ']);
    let mut lines = String::new();
    let mut pos: usize = 0;
    loop
        invariant
            s@ == fields@,
            comma@ == seq![',', ' '],
            pos <= s.len(),
            field_lines(s@, 0) == match field_lines(s@, pos as int) {
                None => None,
                Some(rest) => Some(lines@ + rest),
            },
        decreases s.len() - pos,
    {
        let found = find_from(&s, &comma, pos);
        proof {
            lemma_find(s@, seq![',', ' '], pos as int);
        }
        let end = match found {
            Some(i) => i,
            None => s.len(),
        };
        let piece = copy_range(&s, pos, end);
        let line = match define_field(&piece) {
            Some(l) => l,
            None => return None,
        };
        append_text(&mut lines, &line);
        match found {
            Some(i) => {
                pos = i + 2;
            },
            None => return Some(struct_declaration(struct_name, &lines)),
        }
    }
}

/// `pub struct name {`, the field lines, and the closing brace.
fn struct_declaration(name: &str, lines: &String) -> (r: String)
    ensures
        r@ == "pub struct "@ + name@ + " {\n"@ + lines@ + "}\n"@,
{
    let mut r = "pub struct ".to_owned();
    r.append(name);
    r.append(" {\n");
    append_text(&mut r, lines);
    r.append("}\n");
    r
}

/// Writes the declaration for one entry `Name : type name, type name`.
fn define_entry(base_name: &str, t: &String) -> (r: Option<String>)
    ensures
        match r {
            Some(s) => entry_declaration(t@) == Some(s@),
            None => entry_declaration(t@) is None,
        },
{
    let s = chars_of(t.as_str());
    let colon: [char; 1] = [':'];
    assert(colon@ == seq![':']);
    let i = match find_from(&s, &colon, 0) {
        Some(i) => i,
        None => return None,
    };
    proof {
        lemma_find(s@, seq![':'], 0);
        assert(i + 1 <= s@.len());
    }
    let end = match find_from(&s, &colon, i + 1) {
        Some(j) => {
            proof {
                lemma_find(s@, seq![':'], i + 1);
            }
            j
        },
        None => s.len(),
    };
    let struct_name = trim_text(&s, 0, i);
    let fields = trim_text(&s, i + 1, end);
    define_type(base_name, struct_name.as_str(), fields.as_str())
}

/// Once a prefix of the entries has no declaration, neither has the whole list.
proof fn lemma_declarations_fail(base: Seq<char>, types: Seq<Seq<char>>, k: int)
    requires
        0 <= k <= types.len(),
        ast_declarations(base, types.take(k)) is None,
    ensures
        ast_declarations(base, types) is None,
    decreases types.len() - k,
{
    if k < types.len() {
        assert(types.take(k + 1).drop_last() =~= types.take(k));
        lemma_declarations_fail(base, types, k + 1);
    } else {
        assert(types.take(k) =~= types);
    }
}

/// Writes the declaration of base type `base_name`, then that of each entry
/// of `types`, written `Name : type name, type name`. It has none where an
/// entry has no colon or a field has no space.
pub fn define_ast(base_name: &str, types: &Vec<String>) -> (r: Option<String>)
    ensures
        match r {
            Some(s) => ast_declarations(base_name@, types@.map_values(|t: String| t@)) == Some(s@),
            None => ast_declarations(base_name@, types@.map_values(|t: String| t@)) is None,
        },
{
    let ghost all = types@.map_values(|t: String| t@);
    let mut out = struct_declaration(base_name, &String::new());
    assert(all.take(0) =~= Seq::<Seq<char>>::empty());
    assert(out@ =~= "pub struct "@ + base_name@ + " {\n"@ + "}\n"@);
    let mut k: usize = 0;
    while k < types.len()
        invariant
            k <= types.len(),
            all == types@.map_values(|t: String| t@),
            ast_declarations(base_name@, all.take(k as int)) == Some(out@),
        decreases types.len() - k,
    {
        assert(all.take(k + 1).drop_last() =~= all.take(k as int));
        assert(all.take(k + 1).last() == types@[k as int]@);
        match define_entry(base_name, &types[k]) {
            Some(d) => append_text(&mut out, &d),
            None => {
                proof {
                    lemma_declarations_fail(base_name@, all, k + 1);
                }
                return None;
            },
        }
        k += 1;
    }
    assert(all.take(k as int) =~= all);
    Some(out)
}

} // verus!
