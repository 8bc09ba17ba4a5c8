//! What holds of header values, names and lists, and of the headers that are dropped
//! or ask for an upgrade.

use crate::headers::{
    first_value, has_header, header_lists, is_header_name, is_header_value, is_hop_name, is_listed,
    is_name_char, is_readable, is_visible, is_visible_text, listed_names, lists_name, stored_char,
    stored_name, upgrade_readable, upgrade_type, value_text, without_hop, without_listed, Entries,
};
use crate::text::{law_split_concat, law_split_whole, lower_text, split_text, trim_text};
use vstd::prelude::*;
use vstd::utf8::encode_utf8;

verus! {

/// A header value reads as one character for each byte, with the same number.
pub proof fn law_value_text(bytes: Seq<u8>, i: int)
    ensures
        value_text(bytes).len() == bytes.len(),
        0 <= i < bytes.len() ==> value_text(bytes)[i] == bytes[i] as char,
{
}

/// A header value is readable unless one of its bytes is a control byte other than
/// the tab, or past ASCII.
pub proof fn law_visible(bytes: Seq<u8>)
    ensures
        !is_visible(bytes) <==> exists|i: int|
            0 <= i < bytes.len() && (#[trigger] bytes[i] < 0x20 && bytes[i] != 0x9 || bytes[i]
                >= 0x7f),
{
}

/// A header holds a value unless one of its bytes is a control byte other than the
/// tab.
pub proof fn law_header_value(bytes: Seq<u8>)
    ensures
        !is_header_value(bytes) <==> exists|i: int|
            0 <= i < bytes.len() && (#[trigger] bytes[i] < 0x20 && bytes[i] != 0x9 || bytes[i]
                == 0x7f),
{
}

/// A text is visible unless one of its characters is a control character other than
/// the tab, or past ASCII.
pub proof fn law_visible_text(text: Seq<char>)
    ensures
        !is_visible_text(text) <==> exists|i: int|
            0 <= i < text.len() && (#[trigger] text[i] < ' ' && text[i] != '\t' || text[i] > '~'),
{
    if !is_visible_text(text) {
        let i = choose|i: int|
            0 <= i < text.len() && !(' ' <= #[trigger] text[i] <= '~' || text[i] == '\t');
        assert(text[i] < ' ' && text[i] != '\t' || text[i] > '~');
    }
}

/// The characters of a header name are the ASCII letters and digits, and of the other
/// visible characters those that separate nothing.
pub proof fn law_name_char(c: char)
    ensures
        is_name_char(c) <==> {
            let code = c as u32;
            &&& 0x20 < code < 0x7f
            &&& c != '(' && c != ')' && c != '<' && c != '>' && c != '@' && c != ',' && c != ';'
            &&& c != ':' && c != '\\' && c != '"' && c != '/' && c != '[' && c != ']'
            &&& c != '?' && c != '=' && c != '{' && c != '}'
        },
{
}

/// A header name is made of one to 65535 such characters.
pub proof fn law_header_name(name: Seq<char>)
    ensures
        is_header_name(name) <==> {
            &&& 0 < name.len() < 0x1_0000
            &&& !exists|i: int| 0 <= i < name.len() && !is_name_char(#[trigger] name[i])
        },
{
}

/// A header map looks for a text of one to 65535 bytes, but of up to 64 only where all
/// of them can stand in a name. It looks for a name of as many characters: in it are
/// the bytes that can, with capitals made small, and zeros for the others.
pub proof fn law_stored_name(name: Seq<char>, i: int)
    ensures
        ({
            let bytes = encode_utf8(name);
            &&& stored_name(name) is None <==> {
                ||| bytes.len() == 0
                ||| bytes.len() > 0xffff
                ||| bytes.len() <= 64 && exists|k: int|
                    0 <= k < bytes.len() && !is_name_char(#[trigger] bytes[k] as char)
            }
            &&& stored_name(name) matches Some(stored) ==> {
                &&& stored.len() == bytes.len()
                &&& 0 <= i < bytes.len() ==> {
                    let c = bytes[i] as char;
                    &&& !is_name_char(c) ==> stored[i] as u32 == 0
                    &&& is_name_char(c) && 'A' <= c <= 'Z' ==> stored[i] as u32 == bytes[i] + 32
                    &&& is_name_char(c) && !('A' <= c <= 'Z') ==> stored[i] == c
                }
            }
        }),
{
    if stored_name(name) is Some && 0 <= i < encode_utf8(name).len() {
        assert(stored_name(name)->0[i] == stored_char(encode_utf8(name)[i]));
    }
}

/// A text finds the first value of the header that is kept under the name that it
/// stands for, and nothing where there is none or it stands for no name.
pub proof fn law_lookup(entries: Entries, name: Seq<char>, stored: Seq<char>)
    ensures
        stored_name(name) is None ==> !has_header(entries, name),
        stored_name(name) == Some(stored) ==> has_header(entries, name) == entries.contains_key(
            stored,
        ),
        stored_name(name) == Some(stored) && entries.contains_key(stored) ==> first_value(
            entries,
            name,
        ) == entries[stored].first(),
{
}

/// The hop headers are nine.
pub proof fn law_hop_names(name: Seq<char>)
    ensures
        is_hop_name(name) <==> set![
            "connection"@,
            "keep-alive"@,
            "proxy-authenticate"@,
            "proxy-authorization"@,
            "proxy-connection"@,
            "te"@,
            "trailer"@,
            "transfer-encoding"@,
            "upgrade"@,
        ].contains(name),
{
}

/// Of the headers of a message nine never pass, and every other header passes with
/// all of its values.
pub proof fn law_strip_passes(entries: Entries, name: Seq<char>)
    ensures
        ({
            let hop = set![
                "connection"@,
                "keep-alive"@,
                "proxy-authenticate"@,
                "proxy-authorization"@,
                "proxy-connection"@,
                "te"@,
                "trailer"@,
                "transfer-encoding"@,
                "upgrade"@,
            ];
            let passed = without_hop(entries);
            &&& hop.contains(name) ==> !passed.contains_key(name)
            &&& !hop.contains(name) ==> passed.contains_key(name) == entries.contains_key(name)
            &&& !hop.contains(name) && entries.contains_key(name) ==> passed[name] == entries[name]
        }),
{
}

/// A list has a name where one of its items between commas is that name, up to
/// whitespace around it and the case of its letters, and nowhere else.
pub proof fn law_list_items(text: Seq<char>, name: Seq<char>)
    ensures
        lists_name(text, name) <==> exists|i: int|
            0 <= i < split_text(text, ',').len() && lower_text(
                trim_text(#[trigger] split_text(text, ',')[i]),
            ) == name,
{
}

/// An item counts wherever in a list it stands.
pub proof fn law_list_anywhere(head: Seq<char>, item: Seq<char>, tail: Seq<char>)
    requires
        head.len() > 0 ==> head.last() == ',',
        tail.len() > 0 ==> tail.first() == ',',
        !item.contains(','),
    ensures
        split_text(head + item + tail, ',').contains(item),
        lists_name(head + item + tail, lower_text(trim_text(item))),
{
    let text = head + item + tail;
    let pieces = split_text(text, ',');
    law_split_whole(item, ',');
    let start = head + item;
    let first = split_text(start, ',');
    if head.len() > 0 {
        law_split_concat(head.drop_last(), item, ',');
        assert(head.drop_last().push(',') == head);
    } else {
        assert(start == item);
    }
    assert(first.last() == item);
    if tail.len() > 0 {
        law_split_concat(start, tail.drop_first(), ',');
        assert(start.push(',') + tail.drop_first() == text);
        assert(pieces == first + split_text(tail.drop_first(), ','));
    } else {
        assert(start == text);
    }
    assert(pieces[first.len() - 1] == item);
}

/// A header lists what its first value lists, and is readable where that is.
pub proof fn law_first_value_counts(entries: Entries, name: Seq<char>, item: Seq<char>)
    ensures
        !entries.contains_key(name) ==> !header_lists(entries, name, item) && is_readable(
            entries,
            name,
        ),
        entries.contains_key(name) ==> {
            let text = value_text(entries[name].first());
            &&& header_lists(entries, name, item) == lists_name(text, item)
            &&& is_readable(entries, name) == is_visible(entries[name].first())
        },
{
}

/// A message asks for an upgrade where its `connection` header lists `upgrade` and it
/// has an `upgrade` header. Then it asks for what that says.
pub proof fn law_upgrade_type(entries: Entries)
    ensures
        upgrade_type(entries) is Some <==> {
            &&& header_lists(entries, "connection"@, "upgrade"@)
            &&& entries.contains_key("upgrade"@)
        },
        upgrade_type(entries) matches Some(kind) ==> kind == value_text(
            entries["upgrade"@].first(),
        ),
{
}

/// Whether a message asks for an upgrade is clear where it has no `connection` header,
/// or that is readable and lists no `upgrade`, or both it and the `upgrade` header are
/// readable.
pub proof fn law_upgrade_readable(entries: Entries)
    ensures
        upgrade_readable(entries) <==> {
            ||| !entries.contains_key("connection"@)
            ||| is_visible(entries["connection"@].first()) && {
                ||| !lists_name(value_text(entries["connection"@].first()), "upgrade"@)
                ||| !entries.contains_key("upgrade"@)
                ||| is_visible(entries["upgrade"@].first())
            }
        },
{
}

/// Wherever in the `connection` header an item `upgrade` stands, with whatever around
/// it, the protocol of the `upgrade` header is asked for.
pub proof fn law_upgrade_recognised(
    entries: Entries,
    head: Seq<char>,
    item: Seq<char>,
    tail: Seq<char>,
)
    requires
        entries.contains_key("connection"@),
        entries.contains_key("upgrade"@),
        value_text(entries["connection"@].first()) == head + item + tail,
        head.len() > 0 ==> head.last() == ',',
        tail.len() > 0 ==> tail.first() == ',',
        !item.contains(','),
        lower_text(trim_text(item)) == "upgrade"@,
    ensures
        upgrade_type(entries) == Some(value_text(entries["upgrade"@].first())),
{
    law_list_anywhere(head, item, tail);
}

/// A message whose `connection` header has no item `upgrade` asks for no upgrade.
pub proof fn law_upgrade_not_asked(entries: Entries)
    requires
        entries.contains_key("connection"@) ==> forall|i: int|
            0 <= i < split_text(value_text(entries["connection"@].first()), ',').len()
                ==> lower_text(
                trim_text(
                    #[trigger] split_text(value_text(entries["connection"@].first()), ',')[i],
                ),
            ) != "upgrade"@,
    ensures
        upgrade_type(entries) is None,
{
}

/// The `connection` header drops what is kept under the names that its items stand
/// for, and nothing else; a message without one loses nothing.
pub proof fn law_listed_dropped(entries: Entries, stored: Seq<char>)
    ensures
        ({
            let kept = without_listed(entries);
            let listed = entries.contains_key("connection"@) && exists|i: int|
                0 <= i < split_text(value_text(entries["connection"@].first()), ',').len()
                    && stored_name(
                    trim_text(
                        #[trigger] split_text(value_text(entries["connection"@].first()), ',')[i],
                    ),
                ) == Some(stored);
            &&& listed ==> !kept.contains_key(stored)
            &&& !listed ==> kept.contains_key(stored) == entries.contains_key(stored)
            &&& !listed && entries.contains_key(stored) ==> kept[stored] == entries[stored]
        }),
{
    if entries.contains_key("connection"@) {
        let text = value_text(entries["connection"@].first());
        assert(listed_names(text).contains(stored) == is_listed(split_text(text, ','), stored));
    }
}

} // verus!
