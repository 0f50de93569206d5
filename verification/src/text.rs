use vstd::prelude::*;
use vstd::string::*;

verus! {

/// The string `a` followed by `b`.
pub fn concat2(a: &str, b: &str) -> (r: String)
    ensures
        r@ == a@ + b@,
{
    let mut r = String::from_str(a);
    r.append(b);
    r
}

/// The string `a` followed by `b` and then `c`.
pub fn concat3(a: &str, b: &str, c: &str) -> (r: String)
    ensures
        r@ == a@ + b@ + c@,
{
    let mut r = String::from_str(a);
    r.append(b);
    r.append(c);
    r
}

/// The text `"Channel <name> does not exist"`.
pub open spec fn no_such_channel(name: Seq<char>) -> Seq<char> {
    "Channel "@ + name + " does not exist"@
}

/// The error text for a command on a channel that does not exist.
pub fn no_such_channel_text(name: &str) -> (r: String)
    ensures
        r@ == no_such_channel(name@),
{
    concat3("Channel ", name, " does not exist")
}

} // verus!
