//! Script translator: loads a motion script and rewrites known
//! directives into instructions the target firmware understands.

use vstd::prelude::*;

use crate::text::lemma_replace_all_no_occurrence;
use crate::text::occurs;
use crate::text::replace_all;
use crate::text::replace_all_spec;
use crate::text::split_lines;
use crate::text::split_lines_spec;

verus! {

/// Sequential fold of an ordered rule list over one line: each rule
/// replaces every occurrence of its pattern in the previous rule's
/// output.  This is not a single simultaneous multi-pattern pass.
pub open spec fn apply_rules_spec(l: Seq<char>, rules: Seq<(Seq<char>, Seq<char>)>) -> Seq<char>
    decreases rules.len(),
{
    if rules.len() == 0 {
        l
    } else {
        apply_rules_spec(replace_all_spec(l, rules[0].0, rules[0].1), rules.skip(1))
    }
}

/// The fixed rule table, in application order: lift-pen motion becomes
/// a tool-off pulse, a feed-rate modifier is stripped, and return-to-Z0
/// motion becomes a tool-on pulse.
pub open spec fn openbuilds_rules() -> Seq<(Seq<char>, Seq<char>)> {
    seq![
        ("G0 Z5"@, "M300 S50"@),
        (" F1000"@, ""@),
        ("G0 Z0"@, "M300 S30.00"@),
    ]
}

/// Translation of a single line: the fixed rules applied in order.
pub open spec fn translate_line_spec(l: Seq<char>) -> Seq<char> {
    apply_rules_spec(l, openbuilds_rules())
}

/// Line-local translation of a whole script, keeping order and count.
pub open spec fn translate_all_spec(lines: Seq<Seq<char>>) -> Seq<Seq<char>> {
    lines.map(|i: int, l: Seq<char>| translate_line_spec(l))
}

/// What loading a script file with the given text yields: its lines,
/// each translated independently, in file order.
pub open spec fn document_spec(content: Seq<char>) -> Seq<Seq<char>> {
    translate_all_spec(split_lines_spec(content))
}

/// The fixed rule table as an executable value, pattern first.
pub fn openbuilds_compat() -> (r: Vec<(String, String)>)
    ensures
        r.deep_view() == openbuilds_rules(),
        forall|k: int| 0 <= k < r.deep_view().len() ==> #[trigger] r.deep_view()[k].0.len() > 0,
{
    let mut r: Vec<(String, String)> = Vec::new();
    r.push((String::from_str("G0 Z5"), String::from_str("M300 S50")));
    r.push((String::from_str(" F1000"), String::from_str("")));
    r.push((String::from_str("G0 Z0"), String::from_str("M300 S30.00")));
    proof {
        reveal_strlit("G0 Z5");
        reveal_strlit(" F1000");
        reveal_strlit("G0 Z0");
        assert(r.deep_view() =~= openbuilds_rules());
    }
    r
}

/// Applies an ordered rule list to one line, first rule first.
pub fn apply_rules(line: &str, rules: &Vec<(String, String)>) -> (r: String)
    requires
        forall|k: int| 0 <= k < rules.deep_view().len() ==> #[trigger] rules.deep_view()[k].0.len()
            > 0,
    ensures
        r@ == apply_rules_spec(line@, rules.deep_view()),
{
    let ghost all = rules.deep_view();
    let mut cur = String::from_str(line);
    let mut j: usize = 0;
    proof {
        assert(all.skip(0) =~= all);
    }
    while j < rules.len()
        invariant
            all == rules.deep_view(),
            forall|k: int| 0 <= k < all.len() ==> #[trigger] all[k].0.len() > 0,
            0 <= j <= rules.len(),
            all.len() == rules@.len(),
            apply_rules_spec(line@, all) == apply_rules_spec(cur@, all.skip(j as int)),
        decreases rules.len() - j,
    {
        let ghost rest = all.skip(j as int);
        proof {
            assert(rest[0] == all[j as int]);
            assert(all[j as int] == (rules@[j as int].0@, rules@[j as int].1@));
            assert(rest.skip(1) =~= all.skip(j as int + 1));
        }
        let pat = &rules[j].0;
        let rep = &rules[j].1;
        cur = replace_all(cur.as_str(), pat.as_str(), rep.as_str());
        j += 1;
    }
    proof {
        assert(all.skip(rules@.len() as int) =~= Seq::<(Seq<char>, Seq<char>)>::empty());
    }
    cur
}

/// Translates one line of a motion script with the fixed rule table.
pub fn translate_line(line: &str) -> (r: String)
    ensures
        r@ == translate_line_spec(line@),
{
    let rules = openbuilds_compat();
    apply_rules(line, &rules)
}

/// Translates every line of a script, in order, one output line per
/// input line.
pub fn translate_gcode(gcode: Vec<String>) -> (r: Vec<String>)
    ensures
        r.deep_view() == translate_all_spec(gcode.deep_view()),
{
    let mut buffer: Vec<String> = Vec::new();
    let mut idx: usize = 0;
    while idx < gcode.len()
        invariant
            0 <= idx <= gcode@.len(),
            buffer.deep_view().len() == idx,
            forall|k: int| 0 <= k < idx ==> #[trigger] buffer.deep_view()[k] == translate_line_spec(
                gcode.deep_view()[k],
            ),
        decreases gcode@.len() - idx,
    {
        let line = translate_line(gcode[idx].as_str());
        let ghost old_buffer = buffer;
        buffer.push(line);
        proof {
            assert(buffer.deep_view() =~= old_buffer.deep_view().push(line@));
            assert(gcode.deep_view()[idx as int] == gcode@[idx as int]@);
        }
        idx += 1;
    }
    proof {
        assert(buffer.deep_view() =~= translate_all_spec(gcode.deep_view()));
    }
    buffer
}

/// A loaded script: the path it came from and its translated
/// instruction lines, immutable once built and in original file order.
pub struct GCodeLoader {
    pub filepath: String,
    pub gcode: Vec<String>,
}

impl GCodeLoader {
    /// Builds a script document from a file's path and text: the text
    /// is split into lines and every line is translated.
    pub fn new(filepath: String, content: &str) -> (loader: Self)
        ensures
            loader.filepath == filepath,
            loader.gcode.deep_view() == document_spec(content@),
    {
        let lines = split_lines(content);
        let gcode = translate_gcode(lines);
        GCodeLoader { filepath, gcode }
    }
}

impl Default for GCodeLoader {
    /// An empty document bound to no path.
    fn default() -> (r: Self)
        ensures
            r.filepath@ == Seq::<char>::empty(),
            r.gcode@ == Seq::<String>::empty(),
    {
        GCodeLoader { filepath: String::new(), gcode: Vec::new() }
    }
}

/// A line in which no rule's pattern occurs is translated to itself.
pub proof fn lemma_translate_identity(l: Seq<char>)
    requires
        !occurs(l, "G0 Z5"@),
        !occurs(l, " F1000"@),
        !occurs(l, "G0 Z0"@),
    ensures
        translate_line_spec(l) == l,
{
    let rules = openbuilds_rules();
    let r1 = seq![(" F1000"@, ""@), ("G0 Z0"@, "M300 S30.00"@)];
    let r2 = seq![("G0 Z0"@, "M300 S30.00"@)];
    let r3 = Seq::<(Seq<char>, Seq<char>)>::empty();
    assert(rules.skip(1) =~= r1);
    assert(r1.skip(1) =~= r2);
    assert(r2.skip(1) =~= r3);
    lemma_replace_all_no_occurrence(l, "G0 Z5"@, "M300 S50"@);
    lemma_replace_all_no_occurrence(l, " F1000"@, ""@);
    lemma_replace_all_no_occurrence(l, "G0 Z0"@, "M300 S30.00"@);
    assert(apply_rules_spec(l, r3) == l);
    assert(apply_rules_spec(l, r2) == l);
    assert(apply_rules_spec(l, r1) == l);
    assert(apply_rules_spec(l, rules) == l);
}

/// A document's translation has exactly one instruction per input
/// line, each the translation of the line at the same index.
pub proof fn lemma_document_shape(content: Seq<char>)
    ensures
        document_spec(content).len() == split_lines_spec(content).len(),
        forall|k: int|
            0 <= k < split_lines_spec(content).len() ==> #[trigger] document_spec(content)[k]
                == translate_line_spec(split_lines_spec(content)[k]),
{
}

} // verus!
