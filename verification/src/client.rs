//! The control client's data model and pure logic: the typed shapes of the
//! compositor's query responses, the text the client prints for them, and
//! the selection matching that turns a menu program's echoed line back into
//! a candidate index.

use vstd::prelude::*;

verus! {

use crate::copy_vec;
use crate::geometry::NEWLINE;

/// ASCII colon.
pub const COLON: u8 = 58;

/// ASCII comma.
pub const COMMA: u8 = 44;

/// ASCII space.
pub const SPACE: u8 = 32;

/// One window's rectangle inside a layout preview.
pub struct ViewBox {
    pub x: isize,
    pub y: isize,
    pub width: isize,
    pub height: isize,
}

/// One layout the compositor offers: a description and preview rectangles.
pub struct Layout {
    pub description: Vec<u8>,
    pub views: Vec<ViewBox>,
}

/// One window on a workspace.
pub struct WindowView {
    pub title: Vec<u8>,
    pub focus: bool,
}

/// One workspace: its tag and its windows.
pub struct Workspace {
    pub tag: Vec<u8>,
    pub views: Vec<WindowView>,
}

/// One output and the workspace it shows.
pub struct Output {
    pub name: Vec<u8>,
    pub workspace: Workspace,
}

/// Compares two byte strings for equality.
pub fn bytes_eq(a: &Vec<u8>, b: &Vec<u8>) -> (r: bool)
    ensures
        r == (a@ == b@),
{
    if a.len() != b.len() {
        proof {
            assert(a@ != b@);
        }
        return false;
    }
    let mut i: usize = 0;
    while i < a.len()
        invariant
            a@.len() == b@.len(),
            i <= a@.len(),
            forall|j: int| 0 <= j < i ==> a@[j] == b@[j],
        decreases a@.len() - i,
    {
        if a[i] != b[i] {
            proof {
                assert(a@[i as int] != b@[i as int]);
            }
            return false;
        }
        i += 1;
    }
    proof {
        assert(a@ =~= b@);
    }
    true
}

/// A selector program's output with one trailing newline removed, if any.
pub open spec fn trimmed_output(s: Seq<u8>) -> Seq<u8> {
    if s.len() > 0 && s.last() == NEWLINE {
        s.drop_last()
    } else {
        s
    }
}

/// Recovers the chosen index from a selector program's echoed line: the
/// output, trimmed of one trailing newline, is compared for exact equality
/// against each candidate in order; the first match is the choice, and no
/// match is no selection.
pub fn select_index(choices: &Vec<Vec<u8>>, output: &Vec<u8>) -> (r: Option<usize>)
    ensures
        match r {
            Some(i) => {
                &&& i < choices@.len()
                &&& choices@[i as int]@ == trimmed_output(output@)
                &&& forall|j: int| 0 <= j < i ==> choices@[j]@ != trimmed_output(output@)
            },
            None => forall|j: int|
                0 <= j < choices@.len() ==> choices@[j]@ != trimmed_output(output@),
        },
{
    let mut wanted = copy_vec(output);
    if wanted.len() > 0 && wanted[wanted.len() - 1] == NEWLINE {
        wanted.pop();
        proof {
            assert(wanted@ =~= trimmed_output(output@));
        }
    }
    proof {
        assert(wanted@ == trimmed_output(output@));
    }
    let mut i: usize = 0;
    while i < choices.len()
        invariant
            wanted@ == trimmed_output(output@),
            i <= choices@.len(),
            forall|j: int| 0 <= j < i ==> choices@[j]@ != trimmed_output(output@),
        decreases choices@.len() - i,
    {
        if bytes_eq(&choices[i], &wanted) {
            return Some(i);
        }
        i += 1;
    }
    None
}

/// The description texts of a list of layouts, in order.
pub fn layout_descriptions(layouts: &Vec<Layout>) -> (r: Vec<Vec<u8>>)
    ensures
        r@.len() == layouts@.len(),
        forall|i: int| 0 <= i < layouts@.len() ==> r@[i]@ == #[trigger] layouts@[i].description@,
{
    let mut r: Vec<Vec<u8>> = Vec::new();
    let mut i: usize = 0;
    while i < layouts.len()
        invariant
            i <= layouts@.len(),
            r@.len() == i,
            forall|j: int| 0 <= j < i ==> r@[j]@ == #[trigger] layouts@[j].description@,
        decreases layouts@.len() - i,
    {
        r.push(copy_vec(&layouts[i].description));
        i += 1;
    }
    r
}

/// `items` joined by `sep`: nothing for no items, the items with `sep`
/// between neighbours otherwise.
pub open spec fn spec_join(items: Seq<Vec<u8>>, sep: Seq<u8>) -> Seq<u8>
    decreases items.len(),
{
    if items.len() == 0 {
        seq![]
    } else if items.len() == 1 {
        items[0]@
    } else {
        spec_join(items.drop_last(), sep) + sep + items.last()@
    }
}

/// Appends the bytes of `add` to `out`.
pub fn append_bytes(out: &mut Vec<u8>, add: &Vec<u8>)
    ensures
        final(out)@ == old(out)@ + add@,
{
    let mut i: usize = 0;
    while i < add.len()
        invariant
            i <= add@.len(),
            out@ == old(out)@ + add@.take(i as int),
        decreases add@.len() - i,
    {
        out.push(add[i]);
        proof {
            assert(old(out)@ + add@.take(i + 1) =~= (old(out)@ + add@.take(i as int)).push(
                add@[i as int],
            ));
        }
        i += 1;
    }
    proof {
        assert(old(out)@ + add@.take(add@.len() as int) =~= old(out)@ + add@);
    }
}

pub proof fn lemma_spec_join_take(items: Seq<Vec<u8>>, sep: Seq<u8>, i: int)
    requires
        1 <= i < items.len(),
    ensures
        spec_join(items.take(i + 1), sep) == spec_join(items.take(i), sep) + sep + items[i]@,
{
    assert(items.take(i + 1).drop_last() =~= items.take(i));
    assert(items.take(i + 1).last() == items[i]);
}

/// Joins byte strings with a separator, as the client prints list output:
/// descriptions joined by newlines, titles joined by a comma and space.
pub fn join_bytes(items: &Vec<Vec<u8>>, sep: &Vec<u8>) -> (r: Vec<u8>)
    ensures
        r@ == spec_join(items@, sep@),
{
    let mut r: Vec<u8> = Vec::new();
    let mut i: usize = 0;
    while i < items.len()
        invariant
            i <= items@.len(),
            r@ == spec_join(items@.take(i as int), sep@),
        decreases items@.len() - i,
    {
        if i > 0 {
            append_bytes(&mut r, sep);
        }
        append_bytes(&mut r, &items[i]);
        proof {
            if i == 0 {
                assert(items@.take(1)[0] == items@[0]);
                assert(r@ == spec_join(items@.take(1), sep@));
            } else {
                lemma_spec_join_take(items@, sep@, i as int);
            }
        }
        i += 1;
    }
    proof {
        assert(items@.take(items@.len() as int) =~= items@);
    }
    r
}

/// The window titles of a workspace joined by a comma and space.
pub open spec fn spec_title_list(vs: Seq<WindowView>) -> Seq<u8>
    decreases vs.len(),
{
    if vs.len() == 0 {
        seq![]
    } else if vs.len() == 1 {
        vs[0].title@
    } else {
        spec_title_list(vs.drop_last()) + seq![COMMA, SPACE] + vs.last().title@
    }
}

/// The line the client prints for one workspace: its tag, a colon and
/// space, then its window titles joined by a comma and space.
pub open spec fn spec_workspace_line(ws: Workspace) -> Seq<u8> {
    ws.tag@ + seq![COLON, SPACE] + spec_title_list(ws.views@)
}

pub proof fn lemma_spec_title_list_take(vs: Seq<WindowView>, i: int)
    requires
        1 <= i < vs.len(),
    ensures
        spec_title_list(vs.take(i + 1)) == spec_title_list(vs.take(i)) + seq![COMMA, SPACE]
            + vs[i].title@,
{
    assert(vs.take(i + 1).drop_last() =~= vs.take(i));
    assert(vs.take(i + 1).last() == vs[i]);
}

/// Renders the line the client prints for one workspace.
pub fn workspace_line(ws: &Workspace) -> (r: Vec<u8>)
    ensures
        r@ == spec_workspace_line(*ws),
{
    let mut r = copy_vec(&ws.tag);
    r.push(COLON);
    r.push(SPACE);
    proof {
        assert(r@ =~= ws.tag@ + seq![COLON, SPACE]);
    }
    let ghost head = r@;
    let mut i: usize = 0;
    while i < ws.views.len()
        invariant
            i <= ws.views@.len(),
            head == ws.tag@ + seq![COLON, SPACE],
            r@ == head + spec_title_list(ws.views@.take(i as int)),
        decreases ws.views@.len() - i,
    {
        if i > 0 {
            r.push(COMMA);
            r.push(SPACE);
        }
        append_bytes(&mut r, &ws.views[i].title);
        proof {
            if i == 0 {
                assert(ws.views@.take(1)[0] == ws.views@[0]);
                assert(spec_title_list(ws.views@.take(1)) == ws.views@[0].title@);
                assert(r@ =~= head + spec_title_list(ws.views@.take(1)));
            } else {
                lemma_spec_title_list_take(ws.views@, i as int);
                assert(r@ =~= head + spec_title_list(ws.views@.take(i + 1)));
            }
        }
        i += 1;
    }
    proof {
        assert(ws.views@.take(ws.views@.len() as int) =~= ws.views@);
    }
    r
}

/// Renders the lines the client prints for a workspace listing, in order.
pub fn workspace_lines(wss: &Vec<Workspace>) -> (r: Vec<Vec<u8>>)
    ensures
        r@.len() == wss@.len(),
        forall|i: int| 0 <= i < wss@.len() ==> r@[i]@ == spec_workspace_line(#[trigger] wss@[i]),
{
    let mut r: Vec<Vec<u8>> = Vec::new();
    let mut i: usize = 0;
    while i < wss.len()
        invariant
            i <= wss@.len(),
            r@.len() == i,
            forall|j: int| 0 <= j < i ==> r@[j]@ == spec_workspace_line(#[trigger] wss@[j]),
        decreases wss@.len() - i,
    {
        let line = workspace_line(&wss[i]);
        r.push(line);
        i += 1;
    }
    r
}

} // verus!
