//! The static table mapping an area's display name to the numeric area
//! identifier the listings provider uses, and the lookups over it.
//!
//! The table is pure data: an immutable ordered mapping built once at
//! startup and never mutated.
use vstd::prelude::*;
use crate::text::str_chars;
use crate::text::chars_eq;
use crate::text::string_from_chars;

verus! {

/// Appends one name/identifier pair to the table.
fn push_pair(t: &mut Vec<(String, String)>, name: &str, id: &str)
    ensures
        final(t)@.len() == old(t)@.len() + 1,
        forall|i: int| 0 <= i < old(t)@.len() ==> final(t)@[i] == old(t)@[i],
        final(t)@.last().0@ == name@,
        final(t)@.last().1@ == id@,
{
    let pair = (name.to_owned(), id.to_owned());
    t.push(pair);
}

/// Builds the area table: 54 pairs of area display name and provider
/// identifier, in a fixed order.
pub fn area_table() -> (r: Vec<(String, String)>)
    ensures
        r@.len() == 54,
{
    let mut t: Vec<(String, String)> = Vec::new();
    push_pair(&mut t, "\u{672d}\u{5e4c}", "1");
    push_pair(&mut t, "\u{51fd}\u{9928}", "8");
    push_pair(&mut t, "\u{65ed}\u{5ddd}", "3");
    push_pair(&mut t, "\u{5e2f}\u{5e83}", "9");
    push_pair(&mut t, "\u{91e7}\u{8def}", "10");
    push_pair(&mut t, "\u{5317}\u{898b}", "12");
    push_pair(&mut t, "\u{5ba4}\u{862d}", "6");
    push_pair(&mut t, "\u{9752}\u{68ee}", "13");
    push_pair(&mut t, "\u{5ca9}\u{624b}", "16");
    push_pair(&mut t, "\u{5bae}\u{57ce}", "19");
    push_pair(&mut t, "\u{79cb}\u{7530}", "22");
    push_pair(&mut t, "\u{5c71}\u{5f62}", "25");
    push_pair(&mut t, "\u{798f}\u{5cf6}", "28");
    push_pair(&mut t, "\u{6771}\u{4eac}", "42");
    push_pair(&mut t, "\u{795e}\u{5948}\u{5ddd}", "45");
    push_pair(&mut t, "\u{57fc}\u{7389}", "37");
    push_pair(&mut t, "\u{5343}\u{8449}", "40");
    push_pair(&mut t, "\u{8328}\u{57ce}", "31");
    push_pair(&mut t, "\u{6803}\u{6728}", "33");
    push_pair(&mut t, "\u{7fa4}\u{99ac}", "35");
    push_pair(&mut t, "\u{5c71}\u{68a8}", "50");
    push_pair(&mut t, "\u{9577}\u{91ce}", "51");
    push_pair(&mut t, "\u{65b0}\u{6f5f}", "56");
    push_pair(&mut t, "\u{611b}\u{77e5}", "73");
    push_pair(&mut t, "\u{77f3}\u{5ddd}", "60");
    push_pair(&mut t, "\u{9759}\u{5ca1}", "67");
    push_pair(&mut t, "\u{798f}\u{4e95}", "62");
    push_pair(&mut t, "\u{5bcc}\u{5c71}", "58");
    push_pair(&mut t, "\u{4e09}\u{91cd}", "76");
    push_pair(&mut t, "\u{5c90}\u{961c}", "64");
    push_pair(&mut t, "\u{5927}\u{962a}", "84");
    push_pair(&mut t, "\u{4eac}\u{90fd}", "81");
    push_pair(&mut t, "\u{5175}\u{5eab}", "85");
    push_pair(&mut t, "\u{548c}\u{6b4c}\u{5c71}", "93");
    push_pair(&mut t, "\u{5948}\u{826f}", "91");
    push_pair(&mut t, "\u{6ecb}\u{8cc0}", "79");
    push_pair(&mut t, "\u{5e83}\u{5cf6}", "101");
    push_pair(&mut t, "\u{5ca1}\u{5c71}", "98");
    push_pair(&mut t, "\u{5cf6}\u{6839}", "96");
    push_pair(&mut t, "\u{9ce5}\u{53d6}", "95");
    push_pair(&mut t, "\u{5c71}\u{53e3}", "105");
    push_pair(&mut t, "\u{611b}\u{5a9b}", "112");
    push_pair(&mut t, "\u{9999}\u{5ddd}", "110");
    push_pair(&mut t, "\u{5fb3}\u{5cf6}", "109");
    push_pair(&mut t, "\u{9ad8}\u{77e5}", "116");
    push_pair(&mut t, "\u{798f}\u{5ca1}", "117");
    push_pair(&mut t, "\u{718a}\u{672c}", "126");
    push_pair(&mut t, "\u{9577}\u{5d0e}", "123");
    push_pair(&mut t, "\u{9e7f}\u{5150}\u{5cf6}", "131");
    push_pair(&mut t, "\u{5bae}\u{5d0e}", "129");
    push_pair(&mut t, "\u{5927}\u{5206}", "127");
    push_pair(&mut t, "\u{4f50}\u{8cc0}", "122");
    push_pair(&mut t, "\u{6c96}\u{7e04}", "134");
    push_pair(&mut t, "\u{5317}\u{4e5d}\u{5dde}", "120");
    t
}

/// The identifier paired with the first entry of the table whose name is
/// `name`; nothing when no entry matches.
pub open spec fn spec_lookup(table: Seq<(String, String)>, name: Seq<char>) -> Option<Seq<char>>
    decreases table.len(),
{
    if table.len() == 0 {
        None
    } else if table[0].0@ == name {
        Some(table[0].1@)
    } else {
        spec_lookup(table.drop_first(), name)
    }
}

/// Looks an area name up in the table, returning the provider identifier
/// of the first matching entry.
pub fn lookup_area(table: &Vec<(String, String)>, name: &str) -> (r: Option<String>)
    ensures
        match spec_lookup(table@, name@) {
            None => r is None,
            Some(v) => r is Some && r->0@ == v,
        },
{
    let target = str_chars(name);
    let mut i: usize = 0;
    proof {
        assert(table@.skip(0) =~= table@);
    }
    while i < table.len()
        invariant
            0 <= i <= table@.len(),
            target@ == name@,
            spec_lookup(table@, name@) == spec_lookup(table@.skip(i as int), name@),
        decreases table@.len() - i,
    {
        proof {
            assert(table@.skip(i as int)[0] == table@[i as int]);
            assert(table@.skip(i as int).drop_first() =~= table@.skip(i as int + 1));
        }
        let entry_name = str_chars(table[i].0.as_str());
        if chars_eq(&entry_name, &target) {
            let id = str_chars(table[i].1.as_str());
            return Some(string_from_chars(&id));
        }
        i = i + 1;
    }
    proof {
        assert(table@.skip(table@.len() as int) =~= Seq::<(String, String)>::empty());
    }
    None
}

/// The names after the first, each preceded by one space.
pub open spec fn spec_names_tail(table: Seq<(String, String)>) -> Seq<char>
    decreases table.len(),
{
    if table.len() == 0 {
        Seq::empty()
    } else {
        seq![' '] + table[0].0@ + spec_names_tail(table.drop_first())
    }
}

/// All area names of the table, joined by single spaces.
pub open spec fn spec_names_joined(table: Seq<(String, String)>) -> Seq<char> {
    if table.len() == 0 {
        Seq::empty()
    } else {
        table[0].0@ + spec_names_tail(table.drop_first())
    }
}

/// Joins every area name of the table with single spaces, for the message
/// that lists the valid choices.
pub fn area_names_joined(table: &Vec<(String, String)>) -> (r: String)
    ensures
        r@ == spec_names_joined(table@),
{
    let mut out: Vec<char> = Vec::new();
    if table.len() == 0 {
        return string_from_chars(&out);
    }
    let first = str_chars(table[0].0.as_str());
    crate::render::append_chars(&mut out, &first);
    let mut i: usize = 1;
    proof {
        assert(out@ =~= table@[0].0@);
        assert(table@.skip(1) =~= table@.drop_first());
        assert(table@[0].0@ + spec_names_tail(table@.drop_first()) == spec_names_joined(table@));
    }
    while i < table.len()
        invariant
            1 <= i <= table@.len(),
            spec_names_joined(table@) == out@ + spec_names_tail(table@.skip(i as int)),
        decreases table@.len() - i,
    {
        proof {
            assert(table@.skip(i as int)[0] == table@[i as int]);
            assert(table@.skip(i as int).drop_first() =~= table@.skip(i as int + 1));
        }
        crate::render::push_one(&mut out, ' ');
        let nm = str_chars(table[i].0.as_str());
        crate::render::append_chars(&mut out, &nm);
        proof {
            assert(out@ + spec_names_tail(table@.skip(i as int + 1)) =~= spec_names_joined(
                table@,
            ));
        }
        i = i + 1;
    }
    proof {
        assert(spec_names_tail(table@.skip(table@.len() as int)) =~= Seq::<char>::empty());
        assert(out@ + Seq::<char>::empty() =~= out@);
    }
    string_from_chars(&out)
}

} // verus!
