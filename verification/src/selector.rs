//! WS-Management selectors and their `<w:SelectorSet>` rendering.

use vstd::prelude::*;
use vstd::string::StringExecFns;

verus! {

/// A `Name = value` key that picks one instance of a class.
#[derive(Debug, Clone)]
pub struct Selector<'a> {
    pub name: &'a str,
    pub value: &'a str,
}

/// `<w:Selector Name="name">value</w:Selector>`
pub open spec fn selector_item(s: Selector) -> Seq<char> {
    "<w:Selector Name=\""@ + s.name@ + "\">"@ + s.value@ + "</w:Selector>"@
}

/// The selector elements of `sels`, in order.
pub open spec fn selector_items(sels: Seq<Selector>) -> Seq<char>
    decreases sels.len(),
{
    if sels.len() == 0 {
        seq![]
    } else {
        selector_items(sels.drop_last()) + selector_item(sels.last())
    }
}

/// The `<w:SelectorSet>` fragment of `sels`; empty when there are none.
pub open spec fn selector_set(sels: Seq<Selector>) -> Seq<char> {
    if sels.len() == 0 {
        seq![]
    } else {
        "<w:SelectorSet>"@ + selector_items(sels) + "</w:SelectorSet>"@
    }
}

impl<'a> Selector<'a> {
    pub fn new(name: &'a str, value: &'a str) -> (r: Self)
        ensures
            r.name == name,
            r.value == value,
    {
        Self { name, value }
    }

    /// Renders the `<w:SelectorSet>...</w:SelectorSet>` fragment for the
    /// given selectors. Returns an empty string when `sel` is empty so the
    /// envelope builder can unconditionally splice it in.
    pub fn render_set(sel: &[Selector<'_>]) -> (r: String)
        ensures
            r@ == selector_set(sel@),
    {
        if sel.len() == 0 {
            return String::new();
        }
        let mut s = String::from_str("<w:SelectorSet>");
        let mut i: usize = 0;
        while i < sel.len()
            invariant
                i <= sel@.len(),
                s@ == "<w:SelectorSet>"@ + selector_items(sel@.take(i as int)),
            decreases sel@.len() - i,
        {
            let item = &sel[i];
            let ghost before = s@;
            s.append("<w:Selector Name=\"");
            s.append(item.name);
            s.append("\">");
            s.append(item.value);
            s.append("</w:Selector>");
            proof {
                let t = sel@.take(i + 1);
                assert(t.drop_last() =~= sel@.take(i as int));
                assert(t.last() == sel@[i as int]);
                assert(s@ =~= "<w:SelectorSet>"@ + selector_items(sel@.take(i + 1)));
            }
            i = i + 1;
        }
        s.append("</w:SelectorSet>");
        assert(sel@.take(sel@.len() as int) =~= sel@);
        s
    }
}

} // verus!
