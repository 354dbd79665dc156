//! Chat components.

use vstd::prelude::*;

use crate::hir::rules::values::{
    component_json, components_json, empty_component, members_json, set_member, text_component,
};
use crate::hir::{components_view, Component};
use crate::map::TextMap;
use crate::text::{cat3, cat4, join_texts, quoted, texts};

verus! {

impl Component {
    /// A component without members.
    pub(crate) fn empty() -> (r: Component)
        ensures
            r@ == empty_component(),
    {
        let r = Component { members: TextMap::new(), extra: Vec::new() };
        proof {
            r.unfold();
            assert(r@.extra =~= seq![]);
        }
        r
    }

    /// A literal run of text.
    pub fn text(text: &str) -> (r: Component)
        ensures
            r@ == text_component(text@),
    {
        let mut r = Component::empty();
        r.set("text", quoted(text));
        r
    }

    /// Gives a member its value. What was set last is what counts.
    pub fn set(&mut self, key: &str, value: String)
        ensures
            final(self)@ == set_member(old(self)@, key@, value@),
    {
        proof {
            self.unfold();
        }
        self.members.insert(key, value);
        proof {
            self.unfold();
        }
    }

    /// The component as JSON, always spelled the same way.
    pub fn render(&self) -> (r: String)
        ensures
            r@ == component_json(self@),
        decreases self, 0int,
    {
        proof {
            reveal(component_json);
            reveal(components_json);
            self.unfold();
        }
        let mut members = self.members.copy();
        if self.extra.len() > 0 {
            let inner = render_all(&self.extra);
            members.insert("extra", cat3("[", join_texts(&inner, ",").as_str(), "]"));
        }
        let ghost shown = members@;
        let mut parts: Vec<String> = Vec::new();
        let mut i: usize = 0;
        while i < members.len()
            invariant
                i <= shown.len(),
                shown == members@,
                parts@.len() == i,
                forall|k: int|
                    0 <= k < i ==> (#[trigger] parts@[k])@ == "\""@ + shown[k].0 + "\":"@
                        + shown[k].1,
            decreases shown.len() - i,
        {
            let (key, value) = members.entry(i);
            parts.push(cat4("\"", key, "\":", value));
            i += 1;
        }
        proof {
            assert(texts(parts@) =~= members_json(shown));
        }
        cat3("{", join_texts(&parts, ",").as_str(), "}")
    }
}

fn render_all(v: &Vec<Component>) -> (r: Vec<String>)
    ensures
        texts(r@) == components_json(components_view(v@), 0),
    decreases v, 0int,
{
    let ghost all = components_view(v@);
    let mut out: Vec<String> = Vec::new();
    let mut i: usize = 0;
    proof {
        assert(texts(out@) + components_json(all, 0) =~= components_json(all, 0));
    }
    while i < v.len()
        invariant
            i <= v@.len(),
            all == components_view(v@),
            texts(out@) + components_json(all, i as int) == components_json(all, 0),
        decreases v.len() - i,
    {
        proof {
            reveal(components_json);
            reveal(component_json);
            assert(decreases_to!(v => v[i as int]));
            assert(all[i as int] == v@[i as int]@);
        }
        let ghost before = texts(out@);
        let one = v[i].render();
        let ghost shown = one@;
        out.push(one);
        proof {
            assert(texts(out@) =~= before.push(shown));
            assert(texts(out@) + components_json(all, i + 1) =~= before + (seq![shown]
                + components_json(all, i + 1)));
        }
        i += 1;
    }
    proof {
        reveal(components_json);
        assert(texts(out@) + components_json(all, i as int) =~= texts(out@));
    }
    out
}

} // verus!
