//! The colors listed on a part's page, each resolved against a color guide.

use crate::guide::ColorGuide;
use vstd::prelude::*;

verus! {

/// A color as a part page names it, with its id where a guide knows the name.
#[derive(Debug, Clone, PartialEq, Eq, Hash)]
pub struct Color {
    pub name: String,
    pub id: Option<i32>,
}

impl View for Color {
    type V = (Seq<char>, Option<i32>);

    open spec fn view(&self) -> (Seq<char>, Option<i32>) {
        (self.name@, self.id)
    }
}

/// The text that marks an entry of a part page as no color at all.
pub open spec fn not_applicable() -> Seq<char> {
    seq!['(', 'N', 'o', 't', ' ', 'A', 'p', 'p', 'l', 'i', 'c', 'a', 'b', 'l', 'e', ')']
}

pub open spec fn is_not_applicable(s: Seq<char>) -> bool {
    not_applicable().len() <= s.len() && s.subrange(0, not_applicable().len() as int)
        == not_applicable()
}

/// The id that a guide's name direction gives `name`, if there is a guide.
pub open spec fn resolve(name: Seq<char>, names: Option<Map<Seq<char>, i32>>) -> Option<i32> {
    match names {
        Some(m) => if m.contains_key(name) {
            Some(m[name])
        } else {
            None
        },
        None => None,
    }
}

/// The colors that anchor texts give, in their order, with duplicates: those
/// that begin with the marker text are left out, the others resolved.
pub open spec fn known_colors_of(texts: Seq<Seq<char>>, names: Option<Map<Seq<char>, i32>>) -> Seq<
    (Seq<char>, Option<i32>),
>
    decreases texts.len(),
{
    if texts.len() == 0 {
        seq![]
    } else {
        let before = known_colors_of(texts.drop_last(), names);
        if is_not_applicable(texts.last()) {
            before
        } else {
            before.push((texts.last(), resolve(texts.last(), names)))
        }
    }
}

pub open spec fn text_views(texts: Seq<String>) -> Seq<Seq<char>> {
    texts.map_values(|t: String| t@)
}

pub open spec fn color_views(colors: Seq<Color>) -> Seq<(Seq<char>, Option<i32>)> {
    colors.map_values(|c: Color| c@)
}

pub open spec fn guide_names(guide: Option<&ColorGuide>) -> Option<Map<Seq<char>, i32>> {
    match guide {
        Some(g) => Some(g.name_map()),
        None => None,
    }
}

/// Whether `text` begins with the marker text.
pub fn is_not_applicable_text(text: &str) -> (r: bool)
    ensures
        r == is_not_applicable(text@),
{
    let marker = "(Not Applicable)";
    proof {
        reveal_strlit("(Not Applicable)");
    }
    assert(marker@ =~= not_applicable());
    let m: usize = marker.unicode_len();
    let n: usize = text.unicode_len();
    if n < m {
        return false;
    }
    let mut i: usize = 0;
    while i < m
        invariant
            marker@ == not_applicable(),
            m == marker@.len(),
            n == text@.len(),
            m <= n,
            i <= m,
            forall|k: int| 0 <= k < i ==> #[trigger] text@[k] == marker@[k],
        decreases m - i,
    {
        if text.get_char(i) != marker.get_char(i) {
            assert(text@.subrange(0, m as int)[i as int] != not_applicable()[i as int]);
            return false;
        }
        i = i + 1;
    }
    assert(text@.subrange(0, m as int) =~= marker@);
    true
}

/// The colors that a part page's anchor texts give, in order: texts that
/// begin with "(Not Applicable)" are dropped, the rest are kept and given the
/// id that `guide` has for them, or none where there is no guide or it does
/// not know the name.
pub fn known_colors_from_texts(texts: &Vec<String>, guide: Option<&ColorGuide>) -> (r: Vec<Color>)
    requires
        guide matches Some(g) ==> g.wf(),
    ensures
        color_views(r@) == known_colors_of(text_views(texts@), guide_names(guide)),
{
    let mut out: Vec<Color> = Vec::new();
    let mut i: usize = 0;
    while i < texts.len()
        invariant
            i <= texts@.len(),
            guide matches Some(g) ==> g.wf(),
            color_views(out@) == known_colors_of(
                text_views(texts@.subrange(0, i as int)),
                guide_names(guide),
            ),
        decreases texts@.len() - i,
    {
        let text = &texts[i];
        proof {
            let next = text_views(texts@.subrange(0, i + 1));
            assert(next.drop_last() =~= text_views(texts@.subrange(0, i as int)));
            assert(next.last() == text@);
        }
        if !is_not_applicable_text(text.as_str()) {
            let id = match guide {
                Some(g) => g.id_of(text),
                None => None,
            };
            let ghost before = out@;
            out.push(Color { name: text.clone(), id });
            proof {
                assert(color_views(out@) =~= color_views(before).push((text@, id)));
            }
        }
        i = i + 1;
    }
    proof {
        assert(texts@.subrange(0, texts@.len() as int) =~= texts@);
    }
    out
}

} // verus!
