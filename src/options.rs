//! Names of uninterpreted schema options.
use vstd::prelude::*;
use vstd::string::StringExecFns;

verus! {

/// One dotted component of an option name.
pub struct NamePart {
    pub name_part: String,
    pub is_extension: bool,
}

/// An option whose name is kept as its components.
pub struct UninterpretedOption {
    pub name: Vec<NamePart>,
}

/// The components of `parts` written one after another.
pub open spec fn joined_name(parts: Seq<NamePart>) -> Seq<char>
    decreases parts.len(),
{
    if parts.len() == 0 {
        seq![]
    } else {
        joined_name(parts.drop_last()) + parts.last().name_part@
    }
}

/// The full name of `option`: its components concatenated in order.
pub fn make_url(option: &UninterpretedOption) -> (r: String)
    ensures
        r@ == joined_name(option.name@),
{
    let mut res = String::new();
    let mut i: usize = 0;
    assert(option.name@.subrange(0, 0) =~= Seq::<NamePart>::empty());
    while i < option.name.len()
        invariant
            i <= option.name@.len(),
            res@ == joined_name(option.name@.subrange(0, i as int)),
        decreases option.name@.len() - i,
    {
        res.append(option.name[i].name_part.as_str());
        proof {
            let t = option.name@.subrange(0, i + 1);
            assert(t.drop_last() =~= option.name@.subrange(0, i as int));
        }
        i = i + 1;
    }
    assert(option.name@.subrange(0, i as int) =~= option.name@);
    res
}

} // verus!
