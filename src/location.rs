use vstd::prelude::*;
use crate::text::is_blank;

verus! {

/// A category of fictional number: a kind of number range, a city or region,
/// or `Random`, which stands for "any one of the regions, drawn afresh".
#[derive(Clone, Copy, Debug, PartialEq, Eq, Structural)]
pub enum Location {
    Mobile,
    Freephone,
    Premium,
    UK,
    NoArea,
    Leeds,
    Sheffield,
    Nottingham,
    Leicester,
    Bristol,
    Reading,
    Birmingham,
    Edinburgh,
    Glasgow,
    Liverpool,
    Manchester,
    London,
    TynesideDurhamSunderland,
    NI,
    Cardiff,
    Random,
}

/// The label under which a location is shown and stored.
pub open spec fn label(l: Location) -> Seq<char> {
    match l {
        Location::Mobile => "Mobile (07)"@,
        Location::Freephone => "Freephone (08)"@,
        Location::Premium => "Premium (09)"@,
        Location::UK => "UK-Wide (03)"@,
        Location::NoArea => "No Area (01632)"@,
        Location::Leeds => "Leeds (0113)"@,
        Location::Sheffield => "Sheffield (0114)"@,
        Location::Nottingham => "Nottingham (0115)"@,
        Location::Leicester => "Leicester (0116)"@,
        Location::Bristol => "Bristol (0117)"@,
        Location::Reading => "Reading (0118)"@,
        Location::Birmingham => "Birmingham (0121)"@,
        Location::Edinburgh => "Edinburgh (0131)"@,
        Location::Glasgow => "Glasgow (0141)"@,
        Location::Liverpool => "Liverpool (0151)"@,
        Location::Manchester => "Manchester (0161)"@,
        Location::London => "London (020)"@,
        Location::TynesideDurhamSunderland => "Tyneside/Durham/Sunderland (0191)"@,
        Location::NI => "Northern Ireland (028)"@,
        Location::Cardiff => "Cardiff (029)"@,
        Location::Random => "Random Region"@,
    }
}

/// The dial prefix of a location; `Random` has none of its own.
pub open spec fn prefix(l: Location) -> Seq<char>
    recommends
        !(l is Random),
{
    match l {
        Location::Mobile => "07700 900"@,
        Location::Freephone => "08081 570"@,
        Location::Premium => "0909 8790"@,
        Location::UK => "03069 990"@,
        Location::NoArea => "01632 960"@,
        Location::Leeds => "0113 496 0"@,
        Location::Sheffield => "0114 496 0"@,
        Location::Nottingham => "0115 496 0"@,
        Location::Leicester => "0116 496 0"@,
        Location::Bristol => "0117 496 0"@,
        Location::Reading => "0118 496 0"@,
        Location::Birmingham => "0121 496 0"@,
        Location::Edinburgh => "0131 496 0"@,
        Location::Glasgow => "0141 496 0"@,
        Location::Liverpool => "0151 496 0"@,
        Location::Manchester => "0161 496 0"@,
        Location::London => "020 7846 0"@,
        Location::TynesideDurhamSunderland => "0191 498 0"@,
        Location::NI => "028 9649 6"@,
        Location::Cardiff => "029 2018 0"@,
        Location::Random => Seq::empty(),
    }
}

/// The regions in listing order: every location but `Random`.
pub open spec fn region_seq() -> Seq<Location> {
    seq![
        Location::Mobile,
        Location::Freephone,
        Location::Premium,
        Location::UK,
        Location::NoArea,
        Location::Leeds,
        Location::Sheffield,
        Location::Nottingham,
        Location::Leicester,
        Location::Bristol,
        Location::Reading,
        Location::Birmingham,
        Location::Edinburgh,
        Location::Glasgow,
        Location::Liverpool,
        Location::Manchester,
        Location::London,
        Location::TynesideDurhamSunderland,
        Location::NI,
        Location::Cardiff,
    ]
}

/// Every location in listing order, `Random` last.
pub open spec fn all_seq() -> Seq<Location> {
    region_seq().push(Location::Random)
}

/// The location whose label is `s`, if there is one.
pub open spec fn from_label(s: Seq<char>) -> Option<Location> {
    if exists|l: Location| label(l) == s {
        Some(choose|l: Location| label(l) == s)
    } else {
        None
    }
}

/// Distinct locations have distinct labels, so a label names one location.
pub proof fn lemma_label_injective(a: Location, b: Location)
    ensures
        label(a) == label(b) ==> a == b,
{
    reveal_strlit("Mobile (07)");
    reveal_strlit("Freephone (08)");
    reveal_strlit("Premium (09)");
    reveal_strlit("UK-Wide (03)");
    reveal_strlit("No Area (01632)");
    reveal_strlit("Leeds (0113)");
    reveal_strlit("Sheffield (0114)");
    reveal_strlit("Nottingham (0115)");
    reveal_strlit("Leicester (0116)");
    reveal_strlit("Bristol (0117)");
    reveal_strlit("Reading (0118)");
    reveal_strlit("Birmingham (0121)");
    reveal_strlit("Edinburgh (0131)");
    reveal_strlit("Glasgow (0141)");
    reveal_strlit("Liverpool (0151)");
    reveal_strlit("Manchester (0161)");
    reveal_strlit("London (020)");
    reveal_strlit("Tyneside/Durham/Sunderland (0191)");
    reveal_strlit("Northern Ireland (028)");
    reveal_strlit("Cardiff (029)");
    reveal_strlit("Random Region");
    if label(a) == label(b) {
        assert(label(a).len() == label(b).len());
        assert(label(a)[0] == label(b)[0]);
        assert(label(a)[6] == label(b)[6]);
    }
}

/// Reading a label back gives the location it was taken from.
pub proof fn lemma_from_label_of_label(l: Location)
    ensures
        from_label(label(l)) == Some(l),
{
    let c = choose|m: Location| label(m) == label(l);
    lemma_label_injective(c, l);
}

/// Every region has a prefix, and no two regions share one.
pub proof fn lemma_prefix_distinct(a: Location, b: Location)
    requires
        !(a is Random),
        !(b is Random),
    ensures
        prefix(a).len() > 0,
        prefix(a) == prefix(b) ==> a == b,
{
    reveal_strlit("07700 900");
    reveal_strlit("08081 570");
    reveal_strlit("0909 8790");
    reveal_strlit("03069 990");
    reveal_strlit("01632 960");
    reveal_strlit("0113 496 0");
    reveal_strlit("0114 496 0");
    reveal_strlit("0115 496 0");
    reveal_strlit("0116 496 0");
    reveal_strlit("0117 496 0");
    reveal_strlit("0118 496 0");
    reveal_strlit("0121 496 0");
    reveal_strlit("0131 496 0");
    reveal_strlit("0141 496 0");
    reveal_strlit("0151 496 0");
    reveal_strlit("0161 496 0");
    reveal_strlit("020 7846 0");
    reveal_strlit("0191 498 0");
    reveal_strlit("028 9649 6");
    reveal_strlit("029 2018 0");
    if prefix(a) == prefix(b) {
        assert(prefix(a).len() == prefix(b).len());
        assert(prefix(a)[2] == prefix(b)[2]);
        assert(prefix(a)[3] == prefix(b)[3]);
    }
}

/// A label is not empty, has no blank at either end and holds no newline,
/// so that it can stand as a value on a line of the settings record.
pub proof fn lemma_label_shape(l: Location)
    ensures
        label(l).len() > 0,
        !is_blank(label(l)[0]),
        !is_blank(label(l).last()),
        forall|i: int| 0 <= i < label(l).len() ==> label(l)[i] != '\n',
{
    reveal_strlit("Mobile (07)");
    reveal_strlit("Freephone (08)");
    reveal_strlit("Premium (09)");
    reveal_strlit("UK-Wide (03)");
    reveal_strlit("No Area (01632)");
    reveal_strlit("Leeds (0113)");
    reveal_strlit("Sheffield (0114)");
    reveal_strlit("Nottingham (0115)");
    reveal_strlit("Leicester (0116)");
    reveal_strlit("Bristol (0117)");
    reveal_strlit("Reading (0118)");
    reveal_strlit("Birmingham (0121)");
    reveal_strlit("Edinburgh (0131)");
    reveal_strlit("Glasgow (0141)");
    reveal_strlit("Liverpool (0151)");
    reveal_strlit("Manchester (0161)");
    reveal_strlit("London (020)");
    reveal_strlit("Tyneside/Durham/Sunderland (0191)");
    reveal_strlit("Northern Ireland (028)");
    reveal_strlit("Cardiff (029)");
    reveal_strlit("Random Region");
}

impl Location {
    /// The label of this location, as shown in a list and written to the settings record.
    pub fn as_string(&self) -> (r: String)
        ensures
            r@ == label(*self),
    {
        match self {
            Location::Mobile => String::from_str("Mobile (07)"),
            Location::Freephone => String::from_str("Freephone (08)"),
            Location::Premium => String::from_str("Premium (09)"),
            Location::UK => String::from_str("UK-Wide (03)"),
            Location::NoArea => String::from_str("No Area (01632)"),
            Location::Leeds => String::from_str("Leeds (0113)"),
            Location::Sheffield => String::from_str("Sheffield (0114)"),
            Location::Nottingham => String::from_str("Nottingham (0115)"),
            Location::Leicester => String::from_str("Leicester (0116)"),
            Location::Bristol => String::from_str("Bristol (0117)"),
            Location::Reading => String::from_str("Reading (0118)"),
            Location::Birmingham => String::from_str("Birmingham (0121)"),
            Location::Edinburgh => String::from_str("Edinburgh (0131)"),
            Location::Glasgow => String::from_str("Glasgow (0141)"),
            Location::Liverpool => String::from_str("Liverpool (0151)"),
            Location::Manchester => String::from_str("Manchester (0161)"),
            Location::London => String::from_str("London (020)"),
            Location::TynesideDurhamSunderland => String::from_str("Tyneside/Durham/Sunderland (0191)"),
            Location::NI => String::from_str("Northern Ireland (028)"),
            Location::Cardiff => String::from_str("Cardiff (029)"),
            Location::Random => String::from_str("Random Region"),
        }
    }

    /// The dial prefix of this location.
    pub fn to_prefix(&self) -> (r: String)
        requires
            !(*self is Random),
        ensures
            r@ == prefix(*self),
    {
        match self {
            Location::Mobile => String::from_str("07700 900"),
            Location::Freephone => String::from_str("08081 570"),
            Location::Premium => String::from_str("0909 8790"),
            Location::UK => String::from_str("03069 990"),
            Location::NoArea => String::from_str("01632 960"),
            Location::Leeds => String::from_str("0113 496 0"),
            Location::Sheffield => String::from_str("0114 496 0"),
            Location::Nottingham => String::from_str("0115 496 0"),
            Location::Leicester => String::from_str("0116 496 0"),
            Location::Bristol => String::from_str("0117 496 0"),
            Location::Reading => String::from_str("0118 496 0"),
            Location::Birmingham => String::from_str("0121 496 0"),
            Location::Edinburgh => String::from_str("0131 496 0"),
            Location::Glasgow => String::from_str("0141 496 0"),
            Location::Liverpool => String::from_str("0151 496 0"),
            Location::Manchester => String::from_str("0161 496 0"),
            Location::London => String::from_str("020 7846 0"),
            Location::TynesideDurhamSunderland => String::from_str("0191 498 0"),
            Location::NI => String::from_str("028 9649 6"),
            Location::Cardiff => String::from_str("029 2018 0"),
            Location::Random => String::new(),
        }
    }

    /// Looks a label up: exact match, no trimming or case folding.
    pub fn from_str(from: &str) -> (r: Result<Location, ()>)
        ensures
            r is Ok <==> from_label(from@) is Some,
            r matches Ok(l) ==> from_label(from@) == Some(l) && label(l) == from@,
    {
        let wanted = String::from_str(from);
        let list = all();
        let mut i: usize = 0;
        while i < list.len()
            invariant
                list@ == all_seq(),
                wanted@ == from@,
                i <= list@.len(),
                forall|j: int| 0 <= j < i ==> label(#[trigger] list@[j]) != from@,
            decreases list@.len() - i,
        {
            if list[i].as_string() == wanted {
                proof {
                    lemma_from_label_of_label(list@[i as int]);
                }
                return Ok(list[i]);
            }
            i = i + 1;
        }
        proof {
            if from_label(from@) is Some {
                let l = from_label(from@)->Some_0;
                assert(all_seq().contains(l)) by {
                    lemma_all_complete(l);
                }
            }
        }
        Err(())
    }
}

/// Every location stands in the listing, and each exactly once; the regions
/// are exactly the locations other than `Random`.
pub proof fn lemma_all_complete(l: Location)
    ensures
        all_seq().contains(l),
        region_seq().contains(l) <==> !(l is Random),
        all_seq().no_duplicates(),
{
    assert(all_seq() =~= seq![
        Location::Mobile,
        Location::Freephone,
        Location::Premium,
        Location::UK,
        Location::NoArea,
        Location::Leeds,
        Location::Sheffield,
        Location::Nottingham,
        Location::Leicester,
        Location::Bristol,
        Location::Reading,
        Location::Birmingham,
        Location::Edinburgh,
        Location::Glasgow,
        Location::Liverpool,
        Location::Manchester,
        Location::London,
        Location::TynesideDurhamSunderland,
        Location::NI,
        Location::Cardiff,
        Location::Random,
    ]);
    match l {
        Location::Mobile => { assert(all_seq()[0] == l); assert(region_seq()[0] == l); }
        Location::Freephone => { assert(all_seq()[1] == l); assert(region_seq()[1] == l); }
        Location::Premium => { assert(all_seq()[2] == l); assert(region_seq()[2] == l); }
        Location::UK => { assert(all_seq()[3] == l); assert(region_seq()[3] == l); }
        Location::NoArea => { assert(all_seq()[4] == l); assert(region_seq()[4] == l); }
        Location::Leeds => { assert(all_seq()[5] == l); assert(region_seq()[5] == l); }
        Location::Sheffield => { assert(all_seq()[6] == l); assert(region_seq()[6] == l); }
        Location::Nottingham => { assert(all_seq()[7] == l); assert(region_seq()[7] == l); }
        Location::Leicester => { assert(all_seq()[8] == l); assert(region_seq()[8] == l); }
        Location::Bristol => { assert(all_seq()[9] == l); assert(region_seq()[9] == l); }
        Location::Reading => { assert(all_seq()[10] == l); assert(region_seq()[10] == l); }
        Location::Birmingham => { assert(all_seq()[11] == l); assert(region_seq()[11] == l); }
        Location::Edinburgh => { assert(all_seq()[12] == l); assert(region_seq()[12] == l); }
        Location::Glasgow => { assert(all_seq()[13] == l); assert(region_seq()[13] == l); }
        Location::Liverpool => { assert(all_seq()[14] == l); assert(region_seq()[14] == l); }
        Location::Manchester => { assert(all_seq()[15] == l); assert(region_seq()[15] == l); }
        Location::London => { assert(all_seq()[16] == l); assert(region_seq()[16] == l); }
        Location::TynesideDurhamSunderland => { assert(all_seq()[17] == l); assert(region_seq()[17] == l); }
        Location::NI => { assert(all_seq()[18] == l); assert(region_seq()[18] == l); }
        Location::Cardiff => { assert(all_seq()[19] == l); assert(region_seq()[19] == l); }
        Location::Random => { assert(all_seq()[20] == l);  }
    }
}

/// The regions in listing order.
pub fn regions() -> (r: Vec<Location>)
    ensures
        r@ == region_seq(),
{
    let r = vec![
        Location::Mobile,
        Location::Freephone,
        Location::Premium,
        Location::UK,
        Location::NoArea,
        Location::Leeds,
        Location::Sheffield,
        Location::Nottingham,
        Location::Leicester,
        Location::Bristol,
        Location::Reading,
        Location::Birmingham,
        Location::Edinburgh,
        Location::Glasgow,
        Location::Liverpool,
        Location::Manchester,
        Location::London,
        Location::TynesideDurhamSunderland,
        Location::NI,
        Location::Cardiff,
    ];
    assert(r@ =~= region_seq());
    r
}

/// Every location in listing order, `Random` last.
pub fn all() -> (r: Vec<Location>)
    ensures
        r@ == all_seq(),
{
    let mut r = regions();
    r.push(Location::Random);
    r
}

} // verus!
