//! The control channel's wire protocol: each message is a four-byte
//! little-endian length prefix — the byte order of the machines the
//! compositor targets — followed by that many bytes of JSON. A
//! request is an object whose `cmd` field selects one of a fixed vocabulary;
//! a response to a mutating command is the bare JSON string `"ok"` on
//! success, and any other string is a verbatim error message.
//!
//! The encoder and decoder here are exact inverses, proved as such; the
//! decoder doubles as the peer's view of a request for tests against a mock
//! compositor.

use vstd::prelude::*;

verus! {

use crate::geometry::{digit_prefix_len, digits_val, is_digit, lemma_digit_prefix_len_is,
    lemma_digits_val_prefix};

/// ASCII double quote.
pub const QUOTE: u8 = 34;

/// ASCII backslash.
pub const BACKSLASH: u8 = 92;

/// ASCII closing brace.
pub const RBRACE: u8 = 125;

/// ASCII minus sign.
pub const MINUS: u8 = 45;

/// A request to the compositor daemon, one per command of the protocol.
#[derive(Clone, Debug, PartialEq, Eq)]
pub enum Request {
    ListLayouts,
    ListOutputs,
    ListWorkspaces,
    NewWorkspace { tag: Vec<u8> },
    RenameWorkspace { tag: Vec<u8>, new_tag: Vec<u8> },
    SetFloating { x: i32, y: i32, width: i32, height: i32 },
    SetLayout { layout_number: u8 },
}

/// The mathematical shape of a request: payload texts as byte sequences,
/// numbers as unbounded integers.
pub enum RequestView {
    ListLayouts,
    ListOutputs,
    ListWorkspaces,
    NewWorkspace { tag: Seq<u8> },
    RenameWorkspace { tag: Seq<u8>, new_tag: Seq<u8> },
    SetFloating { x: int, y: int, width: int, height: int },
    SetLayout { layout_number: int },
}

impl View for Request {
    type V = RequestView;

    open spec fn view(&self) -> RequestView {
        match self {
            Request::ListLayouts => RequestView::ListLayouts,
            Request::ListOutputs => RequestView::ListOutputs,
            Request::ListWorkspaces => RequestView::ListWorkspaces,
            Request::NewWorkspace { tag } => RequestView::NewWorkspace { tag: tag@ },
            Request::RenameWorkspace { tag, new_tag } => RequestView::RenameWorkspace {
                tag: tag@,
                new_tag: new_tag@,
            },
            Request::SetFloating { x, y, width, height } => RequestView::SetFloating {
                x: *x as int,
                y: *y as int,
                width: *width as int,
                height: *height as int,
            },
            Request::SetLayout { layout_number } => RequestView::SetLayout {
                layout_number: *layout_number as int,
            },
        }
    }
}

impl RequestView {
    /// The numbers of a request view fit the wire types the protocol uses.
    pub open spec fn wf(self) -> bool {
        match self {
            RequestView::SetFloating { x, y, width, height } => {
                &&& i32::MIN <= x <= i32::MAX
                &&& i32::MIN <= y <= i32::MAX
                &&& i32::MIN <= width <= i32::MAX
                &&& i32::MIN <= height <= i32::MAX
            },
            RequestView::SetLayout { layout_number } => 0 <= layout_number <= u8::MAX,
            _ => true,
        }
    }
}

/// The opening of every request object: `{"cmd":"`.
pub open spec fn cmd_prefix() -> Seq<u8> {
    seq![
        '{' as u8,
        '"' as u8,
        'c' as u8,
        'm' as u8,
        'd' as u8,
        '"' as u8,
        ':' as u8,
        '"' as u8,
    ]
}

/// The command name `list_layouts`.
pub open spec fn name_list_layouts() -> Seq<u8> {
    seq![
        'l' as u8,
        'i' as u8,
        's' as u8,
        't' as u8,
        '_' as u8,
        'l' as u8,
        'a' as u8,
        'y' as u8,
        'o' as u8,
        'u' as u8,
        't' as u8,
        's' as u8,
    ]
}

/// The command name `list_outputs`.
pub open spec fn name_list_outputs() -> Seq<u8> {
    seq![
        'l' as u8,
        'i' as u8,
        's' as u8,
        't' as u8,
        '_' as u8,
        'o' as u8,
        'u' as u8,
        't' as u8,
        'p' as u8,
        'u' as u8,
        't' as u8,
        's' as u8,
    ]
}

/// The command name `list_workspaces`.
pub open spec fn name_list_workspaces() -> Seq<u8> {
    seq![
        'l' as u8,
        'i' as u8,
        's' as u8,
        't' as u8,
        '_' as u8,
        'w' as u8,
        'o' as u8,
        'r' as u8,
        'k' as u8,
        's' as u8,
        'p' as u8,
        'a' as u8,
        'c' as u8,
        'e' as u8,
        's' as u8,
    ]
}

/// The command name `new_workspace`.
pub open spec fn name_new_workspace() -> Seq<u8> {
    seq![
        'n' as u8,
        'e' as u8,
        'w' as u8,
        '_' as u8,
        'w' as u8,
        'o' as u8,
        'r' as u8,
        'k' as u8,
        's' as u8,
        'p' as u8,
        'a' as u8,
        'c' as u8,
        'e' as u8,
    ]
}

/// The command name `rename_workspace`.
pub open spec fn name_rename_workspace() -> Seq<u8> {
    seq![
        'r' as u8,
        'e' as u8,
        'n' as u8,
        'a' as u8,
        'm' as u8,
        'e' as u8,
        '_' as u8,
        'w' as u8,
        'o' as u8,
        'r' as u8,
        'k' as u8,
        's' as u8,
        'p' as u8,
        'a' as u8,
        'c' as u8,
        'e' as u8,
    ]
}

/// The command name `set_floating`.
pub open spec fn name_set_floating() -> Seq<u8> {
    seq![
        's' as u8,
        'e' as u8,
        't' as u8,
        '_' as u8,
        'f' as u8,
        'l' as u8,
        'o' as u8,
        'a' as u8,
        't' as u8,
        'i' as u8,
        'n' as u8,
        'g' as u8,
    ]
}

/// The command name `set_layout`.
pub open spec fn name_set_layout() -> Seq<u8> {
    seq![
        's' as u8,
        'e' as u8,
        't' as u8,
        '_' as u8,
        'l' as u8,
        'a' as u8,
        'y' as u8,
        'o' as u8,
        'u' as u8,
        't' as u8,
    ]
}

/// The key `"tag"`, closing the command name: `","tag":"`.
pub open spec fn q_tag_key() -> Seq<u8> {
    seq![
        '"' as u8,
        ',' as u8,
        '"' as u8,
        't' as u8,
        'a' as u8,
        'g' as u8,
        '"' as u8,
        ':' as u8,
        '"' as u8,
    ]
}

/// The key `"new_tag"`, following a string value: `,"new_tag":"`.
pub open spec fn new_tag_key() -> Seq<u8> {
    seq![
        ',' as u8,
        '"' as u8,
        'n' as u8,
        'e' as u8,
        'w' as u8,
        '_' as u8,
        't' as u8,
        'a' as u8,
        'g' as u8,
        '"' as u8,
        ':' as u8,
        '"' as u8,
    ]
}

/// The key `"x"`, closing the command name: `","x":`.
pub open spec fn q_x_key() -> Seq<u8> {
    seq!['"' as u8, ',' as u8, '"' as u8, 'x' as u8, '"' as u8, ':' as u8]
}

/// The key `"y"`: `,"y":`.
pub open spec fn y_key() -> Seq<u8> {
    seq![',' as u8, '"' as u8, 'y' as u8, '"' as u8, ':' as u8]
}

/// The key `"width"`: `,"width":`.
pub open spec fn width_key() -> Seq<u8> {
    seq![
        ',' as u8,
        '"' as u8,
        'w' as u8,
        'i' as u8,
        'd' as u8,
        't' as u8,
        'h' as u8,
        '"' as u8,
        ':' as u8,
    ]
}

/// The key `"height"`: `,"height":`.
pub open spec fn height_key() -> Seq<u8> {
    seq![
        ',' as u8,
        '"' as u8,
        'h' as u8,
        'e' as u8,
        'i' as u8,
        'g' as u8,
        'h' as u8,
        't' as u8,
        '"' as u8,
        ':' as u8,
    ]
}

/// The key `"layout_number"`, closing the command name: `","layout_number":`.
pub open spec fn q_layout_number_key() -> Seq<u8> {
    seq![
        '"' as u8,
        ',' as u8,
        '"' as u8,
        'l' as u8,
        'a' as u8,
        'y' as u8,
        'o' as u8,
        'u' as u8,
        't' as u8,
        '_' as u8,
        'n' as u8,
        'u' as u8,
        'm' as u8,
        'b' as u8,
        'e' as u8,
        'r' as u8,
        '"' as u8,
        ':' as u8,
    ]
}

/// The lower-case hex digit for a nibble.
pub open spec fn hex_digit(n: int) -> u8 {
    if n < 10 {
        (48 + n) as u8
    } else {
        (87 + n) as u8
    }
}

/// The JSON escape of one byte: quotes and backslashes get a backslash,
/// control bytes become a `\u00` hex escape, everything else is itself.
/// Bytes above the ASCII range pass through, as UTF-8 text does in JSON.
pub open spec fn esc_byte(b: u8) -> Seq<u8> {
    if b == QUOTE {
        seq![BACKSLASH, QUOTE]
    } else if b == BACKSLASH {
        seq![BACKSLASH, BACKSLASH]
    } else if b < 32 {
        seq![BACKSLASH, 'u' as u8, '0' as u8, '0' as u8, hex_digit((b / 16) as int), hex_digit((b % 16) as int)]
    } else {
        seq![b]
    }
}

/// The JSON escape of a byte string, byte by byte.
pub open spec fn spec_escape(s: Seq<u8>) -> Seq<u8>
    decreases s.len(),
{
    if s.len() == 0 {
        seq![]
    } else {
        esc_byte(s[0]) + spec_escape(s.drop_first())
    }
}

pub proof fn lemma_spec_escape_push(s: Seq<u8>, b: u8)
    ensures
        spec_escape(s.push(b)) == spec_escape(s) + esc_byte(b),
    decreases s.len(),
{
    if s.len() == 0 {
        assert(s.push(b)[0] == b);
        assert(s.push(b).drop_first() =~= seq![]);
        assert(spec_escape(s.push(b)) == esc_byte(s.push(b)[0]) + spec_escape(
            s.push(b).drop_first(),
        ));
        assert(spec_escape(s.push(b)) =~= esc_byte(b));
        assert(spec_escape(s) + esc_byte(b) =~= esc_byte(b));
    } else {
        assert(s.push(b).drop_first() =~= s.drop_first().push(b));
        lemma_spec_escape_push(s.drop_first(), b);
        assert(s.push(b)[0] == s[0]);
        assert(esc_byte(s[0]) + (spec_escape(s.drop_first()) + esc_byte(b)) =~= (esc_byte(s[0])
            + spec_escape(s.drop_first())) + esc_byte(b));
    }
}

/// The decimal digits of a nonnegative number, most significant first.
pub open spec fn spec_dec_nat(n: nat) -> Seq<u8>
    decreases n,
{
    if n < 10 {
        seq![(48 + n) as u8]
    } else {
        spec_dec_nat(n / 10).push((48 + n % 10) as u8)
    }
}

/// The decimal encoding of a signed number: a minus sign for negatives.
pub open spec fn spec_dec_int(x: int) -> Seq<u8> {
    if x < 0 {
        seq![MINUS] + spec_dec_nat((-x) as nat)
    } else {
        spec_dec_nat(x as nat)
    }
}

/// Decimal digits decode back to the number they encode.
pub proof fn lemma_spec_dec_nat_val(n: nat)
    ensures
        spec_dec_nat(n).len() >= 1,
        forall|k: int| 0 <= k < spec_dec_nat(n).len() ==> is_digit(#[trigger] spec_dec_nat(n)[k]),
        digits_val(spec_dec_nat(n)) == n,
    decreases n,
{
    if n < 10 {
        let s = spec_dec_nat(n);
        assert(s == seq![(48 + n) as u8]);
        assert(s.drop_last() =~= seq![]);
        assert(digits_val(s) == digits_val(s.drop_last()) * 10 + (s.last() - 48));
        assert(s[0] == (48 + n) as u8);
        assert(is_digit(s[0]));
    } else {
        lemma_spec_dec_nat_val(n / 10);
        let p = spec_dec_nat(n / 10);
        let s = spec_dec_nat(n);
        assert(s == p.push((48 + n % 10) as u8));
        assert(s.drop_last() =~= p);
        assert(s.last() == (48 + n % 10) as u8);
        assert(digits_val(s) == digits_val(p) * 10 + (s.last() - 48));
        assert forall|k: int| 0 <= k < s.len() implies is_digit(#[trigger] s[k]) by {
            if k < p.len() {
                assert(s[k] == p[k]);
            } else {
                assert(s[k] == (48 + n % 10) as u8);
            }
        }
    }
}

/// What a request looks like on the wire: the canonical JSON object of its
/// command, fields in declaration order, strings escaped, numbers decimal.
pub open spec fn spec_encode_request(r: RequestView) -> Seq<u8> {
    match r {
        RequestView::ListLayouts => cmd_prefix() + name_list_layouts() + seq![QUOTE, RBRACE],
        RequestView::ListOutputs => cmd_prefix() + name_list_outputs() + seq![QUOTE, RBRACE],
        RequestView::ListWorkspaces => cmd_prefix() + name_list_workspaces() + seq![
            QUOTE,
            RBRACE,
        ],
        RequestView::NewWorkspace { tag } => cmd_prefix() + name_new_workspace() + q_tag_key()
            + spec_escape(tag) + seq![QUOTE, RBRACE],
        RequestView::RenameWorkspace { tag, new_tag } => cmd_prefix() + name_rename_workspace()
            + q_tag_key() + spec_escape(tag) + seq![QUOTE] + new_tag_key() + spec_escape(new_tag)
            + seq![QUOTE, RBRACE],
        RequestView::SetFloating { x, y, width, height } => cmd_prefix() + name_set_floating()
            + q_x_key() + spec_dec_int(x) + y_key() + spec_dec_int(y) + width_key() + spec_dec_int(
            width,
        ) + height_key() + spec_dec_int(height) + seq![RBRACE],
        RequestView::SetLayout { layout_number } => cmd_prefix() + name_set_layout()
            + q_layout_number_key() + spec_dec_int(layout_number) + seq![RBRACE],
    }
}

/// Appends the raw bytes of one escaped byte.
fn push_esc_byte(out: &mut Vec<u8>, b: u8)
    ensures
        final(out)@ == old(out)@ + esc_byte(b),
{
    if b == QUOTE {
        out.push(BACKSLASH);
        out.push(QUOTE);
        proof {
            assert(out@ =~= old(out)@ + esc_byte(b));
        }
    } else if b == BACKSLASH {
        out.push(BACKSLASH);
        out.push(BACKSLASH);
        proof {
            assert(out@ =~= old(out)@ + esc_byte(b));
        }
    } else if b < 32 {
        out.push(BACKSLASH);
        out.push('u' as u8);
        out.push('0' as u8);
        out.push('0' as u8);
        let hi = b / 16;
        let lo = b % 16;
        if hi < 10 {
            out.push(48 + hi);
        } else {
            out.push(87 + hi);
        }
        if lo < 10 {
            out.push(48 + lo);
        } else {
            out.push(87 + lo);
        }
        proof {
            assert(out@ =~= old(out)@ + esc_byte(b));
        }
    } else {
        out.push(b);
        proof {
            assert(out@ =~= old(out)@ + esc_byte(b));
        }
    }
}

/// Appends the JSON escape of a byte string.
fn push_escaped(out: &mut Vec<u8>, s: &Vec<u8>)
    ensures
        final(out)@ == old(out)@ + spec_escape(s@),
{
    let mut i: usize = 0;
    while i < s.len()
        invariant
            i <= s@.len(),
            out@ == old(out)@ + spec_escape(s@.take(i as int)),
        decreases s@.len() - i,
    {
        push_esc_byte(out, s[i]);
        proof {
            assert(s@.take(i + 1) =~= s@.take(i as int).push(s@[i as int]));
            lemma_spec_escape_push(s@.take(i as int), s@[i as int]);
            assert((old(out)@ + spec_escape(s@.take(i as int))) + esc_byte(s@[i as int]) =~= old(
                out,
            )@ + (spec_escape(s@.take(i as int)) + esc_byte(s@[i as int])));
        }
        i += 1;
    }
    proof {
        assert(s@.take(s@.len() as int) =~= s@);
    }
}

/// Appends the decimal digits of `n`.
fn push_dec_u32(out: &mut Vec<u8>, n: u32)
    ensures
        final(out)@ == old(out)@ + spec_dec_nat(n as nat),
    decreases n,
{
    if n < 10 {
        out.push(48 + (n as u8));
        proof {
            assert(out@ =~= old(out)@ + spec_dec_nat(n as nat));
        }
    } else {
        push_dec_u32(out, n / 10);
        out.push(48 + ((n % 10) as u8));
        proof {
            assert(out@ =~= old(out)@ + spec_dec_nat(n as nat));
        }
    }
}

/// Builds the object opening `{"cmd":"`.
fn seg_cmd_prefix() -> (r: Vec<u8>)
    ensures
        r@ == cmd_prefix(),
{
    let mut r: Vec<u8> = Vec::new();
    r.push('{' as u8);
    r.push('"' as u8);
    r.push('c' as u8);
    r.push('m' as u8);
    r.push('d' as u8);
    r.push('"' as u8);
    r.push(':' as u8);
    r.push('"' as u8);
    proof {
        assert(r@ =~= cmd_prefix());
    }
    r
}

/// Builds a command name's bytes.
fn seg_name(r0: &Request) -> (r: Vec<u8>)
    ensures
        r@ == match r0@ {
            RequestView::ListLayouts => name_list_layouts(),
            RequestView::ListOutputs => name_list_outputs(),
            RequestView::ListWorkspaces => name_list_workspaces(),
            RequestView::NewWorkspace { .. } => name_new_workspace(),
            RequestView::RenameWorkspace { .. } => name_rename_workspace(),
            RequestView::SetFloating { .. } => name_set_floating(),
            RequestView::SetLayout { .. } => name_set_layout(),
        },
{
    let mut r: Vec<u8> = Vec::new();
    match r0 {
        Request::ListLayouts => {
            r.push('l' as u8);
            r.push('i' as u8);
            r.push('s' as u8);
            r.push('t' as u8);
            r.push('_' as u8);
            r.push('l' as u8);
            r.push('a' as u8);
            r.push('y' as u8);
            r.push('o' as u8);
            r.push('u' as u8);
            r.push('t' as u8);
            r.push('s' as u8);
            proof {
                assert(r@ =~= name_list_layouts());
            }
        },
        Request::ListOutputs => {
            r.push('l' as u8);
            r.push('i' as u8);
            r.push('s' as u8);
            r.push('t' as u8);
            r.push('_' as u8);
            r.push('o' as u8);
            r.push('u' as u8);
            r.push('t' as u8);
            r.push('p' as u8);
            r.push('u' as u8);
            r.push('t' as u8);
            r.push('s' as u8);
            proof {
                assert(r@ =~= name_list_outputs());
            }
        },
        Request::ListWorkspaces => {
            r.push('l' as u8);
            r.push('i' as u8);
            r.push('s' as u8);
            r.push('t' as u8);
            r.push('_' as u8);
            r.push('w' as u8);
            r.push('o' as u8);
            r.push('r' as u8);
            r.push('k' as u8);
            r.push('s' as u8);
            r.push('p' as u8);
            r.push('a' as u8);
            r.push('c' as u8);
            r.push('e' as u8);
            r.push('s' as u8);
            proof {
                assert(r@ =~= name_list_workspaces());
            }
        },
        Request::NewWorkspace { .. } => {
            r.push('n' as u8);
            r.push('e' as u8);
            r.push('w' as u8);
            r.push('_' as u8);
            r.push('w' as u8);
            r.push('o' as u8);
            r.push('r' as u8);
            r.push('k' as u8);
            r.push('s' as u8);
            r.push('p' as u8);
            r.push('a' as u8);
            r.push('c' as u8);
            r.push('e' as u8);
            proof {
                assert(r@ =~= name_new_workspace());
            }
        },
        Request::RenameWorkspace { .. } => {
            r.push('r' as u8);
            r.push('e' as u8);
            r.push('n' as u8);
            r.push('a' as u8);
            r.push('m' as u8);
            r.push('e' as u8);
            r.push('_' as u8);
            r.push('w' as u8);
            r.push('o' as u8);
            r.push('r' as u8);
            r.push('k' as u8);
            r.push('s' as u8);
            r.push('p' as u8);
            r.push('a' as u8);
            r.push('c' as u8);
            r.push('e' as u8);
            proof {
                assert(r@ =~= name_rename_workspace());
            }
        },
        Request::SetFloating { .. } => {
            r.push('s' as u8);
            r.push('e' as u8);
            r.push('t' as u8);
            r.push('_' as u8);
            r.push('f' as u8);
            r.push('l' as u8);
            r.push('o' as u8);
            r.push('a' as u8);
            r.push('t' as u8);
            r.push('i' as u8);
            r.push('n' as u8);
            r.push('g' as u8);
            proof {
                assert(r@ =~= name_set_floating());
            }
        },
        Request::SetLayout { .. } => {
            r.push('s' as u8);
            r.push('e' as u8);
            r.push('t' as u8);
            r.push('_' as u8);
            r.push('l' as u8);
            r.push('a' as u8);
            r.push('y' as u8);
            r.push('o' as u8);
            r.push('u' as u8);
            r.push('t' as u8);
            proof {
                assert(r@ =~= name_set_layout());
            }
        },
    }
    r
}

/// Builds the key `","tag":"`.
fn seg_q_tag_key() -> (r: Vec<u8>)
    ensures
        r@ == q_tag_key(),
{
    let mut r: Vec<u8> = Vec::new();
    r.push('"' as u8);
    r.push(',' as u8);
    r.push('"' as u8);
    r.push('t' as u8);
    r.push('a' as u8);
    r.push('g' as u8);
    r.push('"' as u8);
    r.push(':' as u8);
    r.push('"' as u8);
    proof {
        assert(r@ =~= q_tag_key());
    }
    r
}

/// Builds the key `,"new_tag":"`.
fn seg_new_tag_key() -> (r: Vec<u8>)
    ensures
        r@ == new_tag_key(),
{
    let mut r: Vec<u8> = Vec::new();
    r.push(',' as u8);
    r.push('"' as u8);
    r.push('n' as u8);
    r.push('e' as u8);
    r.push('w' as u8);
    r.push('_' as u8);
    r.push('t' as u8);
    r.push('a' as u8);
    r.push('g' as u8);
    r.push('"' as u8);
    r.push(':' as u8);
    r.push('"' as u8);
    proof {
        assert(r@ =~= new_tag_key());
    }
    r
}

/// Builds the key `","x":`.
fn seg_q_x_key() -> (r: Vec<u8>)
    ensures
        r@ == q_x_key(),
{
    let mut r: Vec<u8> = Vec::new();
    r.push('"' as u8);
    r.push(',' as u8);
    r.push('"' as u8);
    r.push('x' as u8);
    r.push('"' as u8);
    r.push(':' as u8);
    proof {
        assert(r@ =~= q_x_key());
    }
    r
}

/// Builds the key `,"y":`.
fn seg_y_key() -> (r: Vec<u8>)
    ensures
        r@ == y_key(),
{
    let mut r: Vec<u8> = Vec::new();
    r.push(',' as u8);
    r.push('"' as u8);
    r.push('y' as u8);
    r.push('"' as u8);
    r.push(':' as u8);
    proof {
        assert(r@ =~= y_key());
    }
    r
}

/// Builds the key `,"width":`.
fn seg_width_key() -> (r: Vec<u8>)
    ensures
        r@ == width_key(),
{
    let mut r: Vec<u8> = Vec::new();
    r.push(',' as u8);
    r.push('"' as u8);
    r.push('w' as u8);
    r.push('i' as u8);
    r.push('d' as u8);
    r.push('t' as u8);
    r.push('h' as u8);
    r.push('"' as u8);
    r.push(':' as u8);
    proof {
        assert(r@ =~= width_key());
    }
    r
}

/// Builds the key `,"height":`.
fn seg_height_key() -> (r: Vec<u8>)
    ensures
        r@ == height_key(),
{
    let mut r: Vec<u8> = Vec::new();
    r.push(',' as u8);
    r.push('"' as u8);
    r.push('h' as u8);
    r.push('e' as u8);
    r.push('i' as u8);
    r.push('g' as u8);
    r.push('h' as u8);
    r.push('t' as u8);
    r.push('"' as u8);
    r.push(':' as u8);
    proof {
        assert(r@ =~= height_key());
    }
    r
}

/// Builds the key `","layout_number":`.
fn seg_q_layout_number_key() -> (r: Vec<u8>)
    ensures
        r@ == q_layout_number_key(),
{
    let mut r: Vec<u8> = Vec::new();
    r.push('"' as u8);
    r.push(',' as u8);
    r.push('"' as u8);
    r.push('l' as u8);
    r.push('a' as u8);
    r.push('y' as u8);
    r.push('o' as u8);
    r.push('u' as u8);
    r.push('t' as u8);
    r.push('_' as u8);
    r.push('n' as u8);
    r.push('u' as u8);
    r.push('m' as u8);
    r.push('b' as u8);
    r.push('e' as u8);
    r.push('r' as u8);
    r.push('"' as u8);
    r.push(':' as u8);
    proof {
        assert(r@ =~= q_layout_number_key());
    }
    r
}

/// Appends the decimal encoding of `x`, minus sign first for negatives.
fn push_dec_i32(out: &mut Vec<u8>, x: i32)
    ensures
        final(out)@ == old(out)@ + spec_dec_int(x as int),
{
    if x < 0 {
        out.push(MINUS);
        let m: u32 = (-(x as i64)) as u32;
        push_dec_u32(out, m);
        proof {
            assert(m as nat == (-(x as int)) as nat);
            assert(out@ =~= old(out)@ + (seq![MINUS] + spec_dec_nat((-(x as int)) as nat)));
        }
    } else {
        push_dec_u32(out, x as u32);
    }
}

/// Encodes a request as its canonical JSON object.
pub fn encode_request(r: &Request) -> (out: Vec<u8>)
    ensures
        out@ == spec_encode_request(r@),
{
    let mut out: Vec<u8> = Vec::new();
    let prefix = seg_cmd_prefix();
    crate::client::append_bytes(&mut out, &prefix);
    let name = seg_name(r);
    crate::client::append_bytes(&mut out, &name);
    match r {
        Request::ListLayouts => {
            out.push(QUOTE);
            out.push(RBRACE);
            proof {
                assert(out@ =~= spec_encode_request(r@));
            }
        },
        Request::ListOutputs => {
            out.push(QUOTE);
            out.push(RBRACE);
            proof {
                assert(out@ =~= spec_encode_request(r@));
            }
        },
        Request::ListWorkspaces => {
            out.push(QUOTE);
            out.push(RBRACE);
            proof {
                assert(out@ =~= spec_encode_request(r@));
            }
        },
        Request::NewWorkspace { tag } => {
            let key = seg_q_tag_key();
            crate::client::append_bytes(&mut out, &key);
            push_escaped(&mut out, tag);
            out.push(QUOTE);
            out.push(RBRACE);
            proof {
                assert(out@ =~= spec_encode_request(r@));
            }
        },
        Request::RenameWorkspace { tag, new_tag } => {
            let key = seg_q_tag_key();
            crate::client::append_bytes(&mut out, &key);
            push_escaped(&mut out, tag);
            out.push(QUOTE);
            let key2 = seg_new_tag_key();
            crate::client::append_bytes(&mut out, &key2);
            push_escaped(&mut out, new_tag);
            out.push(QUOTE);
            out.push(RBRACE);
            proof {
                assert(out@ =~= spec_encode_request(r@));
            }
        },
        Request::SetFloating { x, y, width, height } => {
            let key = seg_q_x_key();
            crate::client::append_bytes(&mut out, &key);
            push_dec_i32(&mut out, *x);
            let key2 = seg_y_key();
            crate::client::append_bytes(&mut out, &key2);
            push_dec_i32(&mut out, *y);
            let key3 = seg_width_key();
            crate::client::append_bytes(&mut out, &key3);
            push_dec_i32(&mut out, *width);
            let key4 = seg_height_key();
            crate::client::append_bytes(&mut out, &key4);
            push_dec_i32(&mut out, *height);
            out.push(RBRACE);
            proof {
                assert(out@ =~= spec_encode_request(r@));
            }
        },
        Request::SetLayout { layout_number } => {
            let key = seg_q_layout_number_key();
            crate::client::append_bytes(&mut out, &key);
            push_dec_u32(&mut out, *layout_number as u32);
            out.push(RBRACE);
            proof {
                assert(spec_dec_int(layout_number as int) == spec_dec_nat(
                    layout_number as nat,
                ));
                assert(out@ =~= spec_encode_request(r@));
            }
        },
    }
    out
}

/// What remains of `s` after its prefix `p`, if `p` is one.
pub open spec fn strip_prefix(s: Seq<u8>, p: Seq<u8>) -> Option<Seq<u8>> {
    if p.len() <= s.len() && s.take(p.len() as int) == p {
        Some(s.skip(p.len() as int))
    } else {
        None
    }
}

pub proof fn lemma_strip_prefix_concat(p: Seq<u8>, t: Seq<u8>)
    ensures
        strip_prefix(p + t, p) == Some(t),
{
    assert((p + t).take(p.len() as int) =~= p);
    assert((p + t).skip(p.len() as int) =~= t);
}

pub proof fn lemma_strip_prefix_differs(s: Seq<u8>, p: Seq<u8>, i: int)
    requires
        0 <= i < p.len(),
        i < s.len(),
        s[i] != p[i],
    ensures
        strip_prefix(s, p) is None,
{
    if p.len() <= s.len() && s.take(p.len() as int) == p {
        assert(s.take(p.len() as int)[i] == s[i]);
    }
}

/// The byte a single-letter JSON escape stands for, if the letter is one.
pub open spec fn unescape_char(c: u8) -> Option<u8> {
    if c == QUOTE {
        Some(QUOTE)
    } else if c == BACKSLASH {
        Some(BACKSLASH)
    } else if c == '/' as u8 {
        Some('/' as u8)
    } else if c == 'n' as u8 {
        Some(10)
    } else if c == 'r' as u8 {
        Some(13)
    } else if c == 't' as u8 {
        Some(9)
    } else if c == 'b' as u8 {
        Some(8)
    } else if c == 'f' as u8 {
        Some(12)
    } else {
        None
    }
}

/// Whether `b` is a lower-case hexadecimal digit.
pub open spec fn is_hex_lower(b: u8) -> bool {
    is_digit(b) || (97 <= b <= 102)
}

/// The value of a lower-case hexadecimal digit.
pub open spec fn hex_val(b: u8) -> int {
    if is_digit(b) {
        b - 48
    } else {
        b - 87
    }
}

/// Decodes a JSON string body up to and including its closing quote:
/// the decoded bytes and what follows the quote. Plain bytes stand for
/// themselves; a backslash introduces a letter escape or a `\u00` hex
/// escape of one ASCII byte. A missing closing quote, an unknown escape or
/// a `\u` escape outside the ASCII range decodes to nothing.
pub open spec fn spec_unescape(s: Seq<u8>) -> Option<(Seq<u8>, Seq<u8>)>
    decreases s.len(),
{
    if s.len() == 0 {
        None
    } else if s[0] == QUOTE {
        Some((seq![], s.drop_first()))
    } else if s[0] == BACKSLASH {
        if s.len() < 2 {
            None
        } else if unescape_char(s[1]) is Some {
            match spec_unescape(s.skip(2)) {
                Some(p) => Some((seq![unescape_char(s[1])->0] + p.0, p.1)),
                None => None,
            }
        } else if s[1] == 'u' as u8 {
            if s.len() < 6 {
                None
            } else if s[2] == '0' as u8 && s[3] == '0' as u8 && is_hex_lower(s[4]) && is_hex_lower(
                s[5],
            ) && 16 * hex_val(s[4]) + hex_val(s[5]) < 128 {
                match spec_unescape(s.skip(6)) {
                    Some(p) => Some(
                        (seq![(16 * hex_val(s[4]) + hex_val(s[5])) as u8] + p.0, p.1),
                    ),
                    None => None,
                }
            } else {
                None
            }
        } else {
            None
        }
    } else {
        match spec_unescape(s.drop_first()) {
            Some(p) => Some((seq![s[0]] + p.0, p.1)),
            None => None,
        }
    }
}

/// The string-decoding law: decoding an escaped text followed by its
/// closing quote yields exactly the text and what follows the quote, for
/// every byte string and every continuation.
pub proof fn lemma_unescape_escape(t: Seq<u8>, rest: Seq<u8>)
    ensures
        spec_unescape(spec_escape(t) + seq![QUOTE] + rest) == Some((t, rest)),
    decreases t.len(),
{
    let s = spec_escape(t) + seq![QUOTE] + rest;
    if t.len() == 0 {
        assert(spec_escape(t) =~= seq![]);
        assert(s =~= seq![QUOTE] + rest);
        assert(s[0] == QUOTE);
        assert(s.drop_first() =~= rest);
    } else {
        let b = t[0];
        let tl = t.drop_first();
        lemma_unescape_escape(tl, rest);
        let s2 = spec_escape(tl) + seq![QUOTE] + rest;
        assert(spec_escape(t) == esc_byte(b) + spec_escape(tl));
        assert(s =~= esc_byte(b) + s2);
        if b == QUOTE {
            assert(s[0] == BACKSLASH && s[1] == QUOTE);
            assert(s.skip(2) =~= s2);
            assert(unescape_char(s[1]) == Some(QUOTE));
            assert(seq![b] + tl =~= t);
        } else if b == BACKSLASH {
            assert(s[0] == BACKSLASH && s[1] == BACKSLASH);
            assert(s.skip(2) =~= s2);
            assert(unescape_char(s[1]) == Some(BACKSLASH));
            assert(seq![b] + tl =~= t);
        } else if b < 32 {
            assert(s[0] == BACKSLASH && s[1] == 'u' as u8 && s[2] == '0' as u8 && s[3]
                == '0' as u8);
            assert(s[4] == hex_digit((b / 16) as int) && s[5] == hex_digit((b % 16) as int));
            assert(unescape_char('u' as u8) is None);
            assert(is_hex_lower(s[4]) && hex_val(s[4]) == b / 16);
            assert(is_hex_lower(s[5]) && hex_val(s[5]) == b % 16);
            assert(16 * hex_val(s[4]) + hex_val(s[5]) == b);
            assert(s.skip(6) =~= s2);
            assert(seq![b] + tl =~= t);
        } else {
            assert(s[0] == b);
            assert(s.drop_first() =~= s2);
            assert(seq![b] + tl =~= t);
        }
    }
}

/// Parses a decimal integer at the front of `s`: an optional minus sign and
/// digits, bounded by the wire type's range.
pub open spec fn spec_parse_i32(s: Seq<u8>) -> Option<(int, Seq<u8>)> {
    if s.len() > 0 && s[0] == MINUS {
        let n = digit_prefix_len(s.skip(1));
        let v = digits_val(s.skip(1).take(n));
        if n == 0 || v > 0x8000_0000 {
            None
        } else {
            Some((-v, s.skip(1 + n)))
        }
    } else {
        let n = digit_prefix_len(s);
        let v = digits_val(s.take(n));
        if n == 0 || v > 0x7fff_ffff {
            None
        } else {
            Some((v, s.skip(n)))
        }
    }
}

/// Parses a small decimal number at the front of `s`, bounded by one byte.
pub open spec fn spec_parse_u8(s: Seq<u8>) -> Option<(int, Seq<u8>)> {
    let n = digit_prefix_len(s);
    let v = digits_val(s.take(n));
    if n == 0 || v > 255 {
        None
    } else {
        Some((v, s.skip(n)))
    }
}

/// The number-decoding law: parsing a decimal encoding followed by a
/// non-digit continuation yields exactly the number and the continuation.
pub proof fn lemma_parse_dec_i32(x: int, rest: Seq<u8>)
    requires
        i32::MIN <= x <= i32::MAX,
        rest.len() == 0 || !is_digit(rest[0]),
    ensures
        spec_parse_i32(spec_dec_int(x) + rest) == Some((x, rest)),
{
    let s = spec_dec_int(x) + rest;
    if x < 0 {
        let d = spec_dec_nat((-x) as nat);
        lemma_spec_dec_nat_val((-x) as nat);
        assert(s[0] == MINUS);
        assert(s.skip(1) =~= d + rest);
        assert(forall|k: int| 0 <= k < d.len() ==> is_digit(#[trigger] (d + rest)[k]));
        lemma_digit_prefix_len_is(d + rest, d.len() as int);
        assert((d + rest).take(d.len() as int) =~= d);
        assert((d + rest).skip(d.len() as int) =~= rest);
        assert(s.skip(1 + d.len() as int) =~= rest);
    } else {
        let d = spec_dec_nat(x as nat);
        lemma_spec_dec_nat_val(x as nat);
        assert(s.take(d.len() as int) =~= d);
        assert(s[0] == d[0]);
        assert(is_digit(d[0]));
        assert(s[0] != MINUS);
        assert(forall|k: int| 0 <= k < d.len() ==> s[k] == #[trigger] d[k]);
        lemma_digit_prefix_len_is(s, d.len() as int);
        assert(s.skip(d.len() as int) =~= rest);
    }
}

/// The one-byte variant of the number-decoding law.
pub proof fn lemma_parse_dec_u8(x: int, rest: Seq<u8>)
    requires
        0 <= x <= 255,
        rest.len() == 0 || !is_digit(rest[0]),
    ensures
        spec_parse_u8(spec_dec_int(x) + rest) == Some((x, rest)),
{
    let s = spec_dec_int(x) + rest;
    let d = spec_dec_nat(x as nat);
    lemma_spec_dec_nat_val(x as nat);
    assert(s.take(d.len() as int) =~= d);
    assert(forall|k: int| 0 <= k < d.len() ==> s[k] == #[trigger] d[k]);
    lemma_digit_prefix_len_is(s, d.len() as int);
    assert(s.skip(d.len() as int) =~= rest);
}

/// The head of a `new_workspace` request, up to the opening of its tag.
pub open spec fn head_new_workspace() -> Seq<u8> {
    cmd_prefix() + name_new_workspace() + q_tag_key()
}

/// The head of a `rename_workspace` request, up to the opening of its tag.
pub open spec fn head_rename_workspace() -> Seq<u8> {
    cmd_prefix() + name_rename_workspace() + q_tag_key()
}

/// The head of a `set_floating` request, up to its first number.
pub open spec fn head_set_floating() -> Seq<u8> {
    cmd_prefix() + name_set_floating() + q_x_key()
}

/// The head of a `set_layout` request, up to its number.
pub open spec fn head_set_layout() -> Seq<u8> {
    cmd_prefix() + name_set_layout() + q_layout_number_key()
}

/// Decodes the canonical encoding of a request: the inverse of
/// `spec_encode_request` on its range, and nothing on every other input.
pub open spec fn spec_decode_request(s: Seq<u8>) -> Option<RequestView> {
    if s == spec_encode_request(RequestView::ListLayouts) {
        Some(RequestView::ListLayouts)
    } else if s == spec_encode_request(RequestView::ListOutputs) {
        Some(RequestView::ListOutputs)
    } else if s == spec_encode_request(RequestView::ListWorkspaces) {
        Some(RequestView::ListWorkspaces)
    } else if strip_prefix(s, head_new_workspace()) is Some {
        match spec_unescape(strip_prefix(s, head_new_workspace())->0) {
            Some(p) => if p.1 == seq![RBRACE] {
                Some(RequestView::NewWorkspace { tag: p.0 })
            } else {
                None
            },
            None => None,
        }
    } else if strip_prefix(s, head_rename_workspace()) is Some {
        match spec_unescape(strip_prefix(s, head_rename_workspace())->0) {
            Some(p1) => match strip_prefix(p1.1, new_tag_key()) {
                Some(t2) => match spec_unescape(t2) {
                    Some(p2) => if p2.1 == seq![RBRACE] {
                        Some(RequestView::RenameWorkspace { tag: p1.0, new_tag: p2.0 })
                    } else {
                        None
                    },
                    None => None,
                },
                None => None,
            },
            None => None,
        }
    } else if strip_prefix(s, head_set_floating()) is Some {
        match spec_parse_i32(strip_prefix(s, head_set_floating())->0) {
            Some((x, t1)) => match strip_prefix(t1, y_key()) {
                Some(t2) => match spec_parse_i32(t2) {
                    Some((y, t3)) => match strip_prefix(t3, width_key()) {
                        Some(t4) => match spec_parse_i32(t4) {
                            Some((width, t5)) => match strip_prefix(t5, height_key()) {
                                Some(t6) => match spec_parse_i32(t6) {
                                    Some((height, t7)) => if t7 == seq![RBRACE] {
                                        Some(
                                            RequestView::SetFloating { x, y, width, height },
                                        )
                                    } else {
                                        None
                                    },
                                    None => None,
                                },
                                None => None,
                            },
                            None => None,
                        },
                        None => None,
                    },
                    None => None,
                },
                None => None,
            },
            None => None,
        }
    } else if strip_prefix(s, head_set_layout()) is Some {
        match spec_parse_u8(strip_prefix(s, head_set_layout())->0) {
            Some((layout_number, t1)) => if t1 == seq![RBRACE] {
                Some(RequestView::SetLayout { layout_number })
            } else {
                None
            },
            None => None,
        }
    } else {
        None
    }
}

/// Sequences differing at one position differ.
pub proof fn lemma_neq_at(a: Seq<u8>, b: Seq<u8>, i: int)
    requires
        0 <= i < a.len(),
        i < b.len(),
        a[i] != b[i],
    ensures
        a != b,
{
    if a == b {
        assert(a[i] == b[i]);
    }
}

/// A decimal encoding is never empty.
pub proof fn lemma_spec_dec_int_len(x: int)
    ensures
        spec_dec_int(x).len() >= 1,
{
    if x < 0 {
        lemma_spec_dec_nat_val((-x) as nat);
    } else {
        lemma_spec_dec_nat_val(x as nat);
    }
}

/// The request round trip law: decoding the canonical encoding of any
/// well-formed request yields that request back, for every payload text and
/// every number in range.
#[verifier::rlimit(100)]
#[verifier::spinoff_prover]
pub proof fn lemma_request_round_trip(r: RequestView)
    requires
        r.wf(),
    ensures
        spec_decode_request(spec_encode_request(r)) == Some(r),
{
    let s = spec_encode_request(r);
    let e_ll = spec_encode_request(RequestView::ListLayouts);
    let e_lo = spec_encode_request(RequestView::ListOutputs);
    let e_lw = spec_encode_request(RequestView::ListWorkspaces);
    match r {
        RequestView::ListLayouts => {
        },
        RequestView::ListOutputs => {
            assert(s[13] == name_list_outputs()[5]);
            assert(e_ll[13] == name_list_layouts()[5]);
            lemma_neq_at(s, e_ll, 13);
        },
        RequestView::ListWorkspaces => {
            assert(s.len() == 25 && e_ll.len() == 22 && e_lo.len() == 22);
        },
        RequestView::NewWorkspace { tag } => {
            let tail = spec_escape(tag) + seq![QUOTE] + seq![RBRACE];
            assert(s =~= head_new_workspace() + tail);
            assert(s.len() >= 32);
            assert(e_ll.len() == 22 && e_lo.len() == 22 && e_lw.len() == 25);
            lemma_strip_prefix_concat(head_new_workspace(), tail);
            lemma_unescape_escape(tag, seq![RBRACE]);
        },
        RequestView::RenameWorkspace { tag, new_tag } => {
            let t2 = spec_escape(new_tag) + seq![QUOTE] + seq![RBRACE];
            let t1 = new_tag_key() + t2;
            let tail = spec_escape(tag) + seq![QUOTE] + t1;
            assert(s =~= head_rename_workspace() + tail);
            assert(s.len() >= 48);
            assert(e_ll.len() == 22 && e_lo.len() == 22 && e_lw.len() == 25);
            assert(s[8] == name_rename_workspace()[0]);
            assert(head_new_workspace()[8] == name_new_workspace()[0]);
            lemma_strip_prefix_differs(s, head_new_workspace(), 8);
            lemma_strip_prefix_concat(head_rename_workspace(), tail);
            lemma_unescape_escape(tag, t1);
            lemma_strip_prefix_concat(new_tag_key(), t2);
            lemma_unescape_escape(new_tag, seq![RBRACE]);
        },
        RequestView::SetFloating { x, y, width, height } => {
            let ex = spec_dec_int(x);
            let ey = spec_dec_int(y);
            let ew = spec_dec_int(width);
            let eh = spec_dec_int(height);
            lemma_spec_dec_int_len(x);
            lemma_spec_dec_int_len(y);
            lemma_spec_dec_int_len(width);
            lemma_spec_dec_int_len(height);
            let t7 = seq![RBRACE];
            let t6 = eh + t7;
            let t5 = height_key() + t6;
            let t4 = ew + t5;
            let t3 = width_key() + t4;
            let t2 = ey + t3;
            let t1 = y_key() + t2;
            let tail = ex + t1;
            assert(s =~= head_set_floating() + tail);
            assert(s.len() >= 55);
            assert(e_ll.len() == 22 && e_lo.len() == 22 && e_lw.len() == 25);
            assert(s[8] == name_set_floating()[0]);
            assert(head_new_workspace()[8] == name_new_workspace()[0]);
            assert(head_rename_workspace()[8] == name_rename_workspace()[0]);
            lemma_strip_prefix_differs(s, head_new_workspace(), 8);
            lemma_strip_prefix_differs(s, head_rename_workspace(), 8);
            lemma_strip_prefix_concat(head_set_floating(), tail);
            assert(t1[0] == ',' as u8 && !is_digit(',' as u8));
            lemma_parse_dec_i32(x, t1);
            lemma_strip_prefix_concat(y_key(), t2);
            assert(t3[0] == ',' as u8);
            lemma_parse_dec_i32(y, t3);
            lemma_strip_prefix_concat(width_key(), t4);
            assert(t5[0] == ',' as u8);
            lemma_parse_dec_i32(width, t5);
            lemma_strip_prefix_concat(height_key(), t6);
            assert(t7[0] == RBRACE && !is_digit(RBRACE));
            lemma_parse_dec_i32(height, t7);
        },
        RequestView::SetLayout { layout_number } => {
            let en = spec_dec_int(layout_number);
            lemma_spec_dec_int_len(layout_number);
            let t1 = seq![RBRACE];
            let tail = en + t1;
            assert(s =~= head_set_layout() + tail);
            assert(s.len() >= 38);
            assert(e_ll.len() == 22 && e_lo.len() == 22 && e_lw.len() == 25);
            assert(s[8] == name_set_layout()[0]);
            assert(head_new_workspace()[8] == name_new_workspace()[0]);
            assert(head_rename_workspace()[8] == name_rename_workspace()[0]);
            assert(s[12] == name_set_layout()[4]);
            assert(head_set_floating()[12] == name_set_floating()[4]);
            lemma_strip_prefix_differs(s, head_new_workspace(), 8);
            lemma_strip_prefix_differs(s, head_rename_workspace(), 8);
            lemma_strip_prefix_differs(s, head_set_floating(), 12);
            lemma_strip_prefix_concat(head_set_layout(), tail);
            assert(t1[0] == RBRACE && !is_digit(RBRACE));
            lemma_parse_dec_u8(layout_number, t1);
        },
    }
}

/// Checks whether `seg` sits at `pos` in `bytes`; the position after it if
/// so.
fn strip_prefix_at(bytes: &Vec<u8>, pos: usize, seg: &Vec<u8>) -> (r: Option<usize>)
    requires
        pos <= bytes@.len(),
    ensures
        match r {
            Some(p) => {
                &&& p == pos + seg@.len()
                &&& p <= bytes@.len()
                &&& strip_prefix(bytes@.skip(pos as int), seg@) == Some(bytes@.skip(p as int))
            },
            None => strip_prefix(bytes@.skip(pos as int), seg@) is None,
        },
{
    let ghost tail = bytes@.skip(pos as int);
    let n = bytes.len();
    if n - pos < seg.len() {
        return None;
    }
    let mut i: usize = 0;
    while i < seg.len()
        invariant
            pos <= bytes@.len(),
            n == bytes@.len(),
            pos + seg@.len() <= n,
            i <= seg@.len(),
            tail == bytes@.skip(pos as int),
            forall|j: int| 0 <= j < i ==> tail[j] == seg@[j],
        decreases seg@.len() - i,
    {
        if bytes[pos + i] != seg[i] {
            proof {
                assert(tail[i as int] == bytes@[pos + i]);
                lemma_strip_prefix_differs(tail, seg@, i as int);
            }
            return None;
        }
        i += 1;
    }
    proof {
        assert(tail.take(seg@.len() as int) =~= seg@);
        assert(tail.skip(seg@.len() as int) =~= bytes@.skip(pos + seg@.len()));
    }
    Some(pos + seg.len())
}

/// Relates a decoded prefix to the rest of a string decoding.
pub open spec fn prepend_unescaped(p: Seq<u8>, o: Option<(Seq<u8>, Seq<u8>)>) -> Option<
    (Seq<u8>, Seq<u8>),
> {
    match o {
        Some(q) => Some((p + q.0, q.1)),
        None => None,
    }
}

/// Decodes the JSON string body starting at `pos`, up to and including its
/// closing quote: the decoded bytes and the position after the quote.
fn parse_string_at(bytes: &Vec<u8>, pos: usize) -> (r: Option<(Vec<u8>, usize)>)
    requires
        pos <= bytes@.len(),
    ensures
        match r {
            Some(p) => {
                &&& pos <= p.1 <= bytes@.len()
                &&& spec_unescape(bytes@.skip(pos as int)) == Some(
                    (p.0@, bytes@.skip(p.1 as int)),
                )
            },
            None => spec_unescape(bytes@.skip(pos as int)) is None,
        },
{
    let ghost start_tail = bytes@.skip(pos as int);
    let mut acc: Vec<u8> = Vec::new();
    let mut cur = pos;
    loop
        invariant
            pos <= cur <= bytes@.len(),
            start_tail == bytes@.skip(pos as int),
            spec_unescape(start_tail) == prepend_unescaped(
                acc@,
                spec_unescape(bytes@.skip(cur as int)),
            ),
        decreases bytes@.len() - cur,
    {
        let ghost tail = bytes@.skip(cur as int);
        if cur == bytes.len() {
            proof {
                assert(tail.len() == 0);
            }
            return None;
        }
        let b = bytes[cur];
        proof {
            assert(tail[0] == b);
        }
        if b == QUOTE {
            proof {
                assert(tail.drop_first() =~= bytes@.skip(cur + 1));
            }
            return Some((acc, cur + 1));
        }
        if b == BACKSLASH {
            if cur + 1 == bytes.len() {
                proof {
                    assert(tail.len() == 1);
                }
                return None;
            }
            let c = bytes[cur + 1];
            proof {
                assert(tail[1] == c);
            }
            let decoded: u8;
            if c == QUOTE {
                decoded = QUOTE;
            } else if c == BACKSLASH {
                decoded = BACKSLASH;
            } else if c == '/' as u8 {
                decoded = '/' as u8;
            } else if c == 'n' as u8 {
                decoded = 10;
            } else if c == 'r' as u8 {
                decoded = 13;
            } else if c == 't' as u8 {
                decoded = 9;
            } else if c == 'b' as u8 {
                decoded = 8;
            } else if c == 'f' as u8 {
                decoded = 12;
            } else if c == 'u' as u8 {
                if bytes.len() - cur < 6 {
                    proof {
                        assert(tail.len() < 6);
                    }
                    return None;
                }
                let h2 = bytes[cur + 2];
                let h3 = bytes[cur + 3];
                let h4 = bytes[cur + 4];
                let h5 = bytes[cur + 5];
                proof {
                    assert(tail[2] == h2 && tail[3] == h3 && tail[4] == h4 && tail[5] == h5);
                }
                if !(h2 == '0' as u8 && h3 == '0' as u8) {
                    return None;
                }
                let v4: u8 = if h4 >= 48 && h4 <= 57 {
                    h4 - 48
                } else if h4 >= 97 && h4 <= 102 {
                    h4 - 87
                } else {
                    return None;
                };
                let v5: u8 = if h5 >= 48 && h5 <= 57 {
                    h5 - 48
                } else if h5 >= 97 && h5 <= 102 {
                    h5 - 87
                } else {
                    return None;
                };
                let v: u16 = 16 * (v4 as u16) + (v5 as u16);
                if v >= 128 {
                    return None;
                }
                let ghost acc0 = acc@;
                acc.push(v as u8);
                proof {
                    assert(tail.skip(6) =~= bytes@.skip(cur + 6));
                    assert(prepend_unescaped(acc@, spec_unescape(bytes@.skip(cur + 6)))
                        == prepend_unescaped(acc0, spec_unescape(tail))) by {
                        match spec_unescape(bytes@.skip(cur + 6)) {
                            Some(p) => {
                                assert(acc0 + (seq![v as u8] + p.0) =~= acc@ + p.0);
                            },
                            None => {
                            },
                        }
                    }
                }
                cur = cur + 6;
                continue ;
            } else {
                return None;
            }
            let ghost acc0 = acc@;
            acc.push(decoded);
            proof {
                assert(tail.skip(2) =~= bytes@.skip(cur + 2));
                assert(unescape_char(c) == Some(decoded));
                assert(prepend_unescaped(acc@, spec_unescape(bytes@.skip(cur + 2)))
                    == prepend_unescaped(acc0, spec_unescape(tail))) by {
                    match spec_unescape(bytes@.skip(cur + 2)) {
                        Some(p) => {
                            assert(acc0 + (seq![decoded] + p.0) =~= acc@ + p.0);
                        },
                        None => {
                        },
                    }
                }
            }
            cur = cur + 2;
        } else {
            let ghost acc0 = acc@;
            acc.push(b);
            proof {
                assert(tail.drop_first() =~= bytes@.skip(cur + 1));
                assert(prepend_unescaped(acc@, spec_unescape(bytes@.skip(cur + 1)))
                    == prepend_unescaped(acc0, spec_unescape(tail))) by {
                    match spec_unescape(bytes@.skip(cur + 1)) {
                        Some(p) => {
                            assert(acc0 + (seq![b] + p.0) =~= acc@ + p.0);
                        },
                        None => {
                        },
                    }
                }
            }
            cur = cur + 1;
        }
    }
}

/// Scans the decimal number at `start`, bounded by `max`.
fn scan_uint(bytes: &Vec<u8>, start: usize, max: u32) -> (r: Option<(u32, usize)>)
    requires
        start <= bytes@.len(),
    ensures
        ({
            let rest = bytes@.skip(start as int);
            let n = digit_prefix_len(rest);
            match r {
                Some(v) => {
                    &&& n > 0
                    &&& digits_val(rest.take(n)) <= max
                    &&& v.0 == digits_val(rest.take(n))
                    &&& v.1 == start + n
                    &&& v.1 <= bytes@.len()
                },
                None => n == 0 || digits_val(rest.take(n)) > max,
            }
        }),
{
    let ghost rest = bytes@.skip(start as int);
    let mut end = start;
    while end < bytes.len() && bytes[end] >= 48 && bytes[end] <= 57
        invariant
            start <= end <= bytes@.len(),
            rest == bytes@.skip(start as int),
            forall|k: int| 0 <= k < end - start ==> is_digit(#[trigger] rest[k]),
        decreases bytes@.len() - end,
    {
        end += 1;
    }
    proof {
        lemma_digit_prefix_len_is(rest, end - start);
    }
    if end == start {
        return None;
    }
    let ghost run = rest.take(end - start);
    proof {
        assert(forall|k: int| 0 <= k < run.len() ==> is_digit(#[trigger] run[k]));
    }
    let mut v: u32 = 0;
    let mut i = start;
    while i < end
        invariant
            start <= i <= end <= bytes@.len(),
            rest == bytes@.skip(start as int),
            run == rest.take(end - start),
            digit_prefix_len(rest) == end - start,
            forall|k: int| 0 <= k < run.len() ==> is_digit(#[trigger] run[k]),
            run.len() == end - start,
            v <= max,
            v == digits_val(run.take(i - start)),
        decreases end - i,
    {
        proof {
            assert(run[i - start] == bytes@[i as int]);
            assert(is_digit(bytes@[i as int]));
            assert(run.take(i - start + 1).drop_last() =~= run.take(i - start));
            assert(run.take(i - start + 1).last() == run[i - start]);
        }
        let d = bytes[i] - 48;
        if v > max / 10 || 10 * (v as u64) + (d as u64) > max as u64 {
            proof {
                assert(digits_val(run.take(i - start + 1)) > max);
                lemma_digits_val_prefix(run, i - start + 1);
            }
            return None;
        }
        v = 10 * v + (d as u32);
        i += 1;
    }
    proof {
        assert(run.take(run.len() as int) =~= run);
    }
    Some((v, end))
}

/// Parses the signed decimal number at `pos`, in the wire type's range.
fn parse_i32_at(bytes: &Vec<u8>, pos: usize) -> (r: Option<(i32, usize)>)
    requires
        pos <= bytes@.len(),
    ensures
        match r {
            Some(p) => {
                &&& pos <= p.1 <= bytes@.len()
                &&& spec_parse_i32(bytes@.skip(pos as int)) == Some(
                    (p.0 as int, bytes@.skip(p.1 as int)),
                )
            },
            None => spec_parse_i32(bytes@.skip(pos as int)) is None,
        },
{
    let ghost tail = bytes@.skip(pos as int);
    if pos < bytes.len() && bytes[pos] == MINUS {
        proof {
            assert(tail[0] == MINUS);
            assert(tail.skip(1) =~= bytes@.skip(pos + 1));
        }
        match scan_uint(bytes, pos + 1, 0x8000_0000) {
            Some((v, p)) => {
                let x: i32 = (-(v as i64)) as i32;
                proof {
                    assert(bytes@.skip(pos + 1).skip(p - pos - 1) =~= bytes@.skip(p as int));
                    assert(bytes@.skip(pos + 1).take(p - pos - 1) =~= tail.skip(1).take(
                        p - pos - 1,
                    ));
                }
                Some((x, p))
            },
            None => None,
        }
    } else {
        match scan_uint(bytes, pos, 0x7fff_ffff) {
            Some((v, p)) => {
                proof {
                    if tail.len() > 0 {
                        assert(tail[0] == bytes@[pos as int]);
                        assert(is_digit(tail[0]) ==> tail[0] != MINUS);
                        assert(digit_prefix_len(tail) > 0 ==> is_digit(tail[0]));
                    }
                    assert(bytes@.skip(pos as int).skip(p - pos) =~= bytes@.skip(p as int));
                }
                Some((v as i32, p))
            },
            None => None,
        }
    }
}

/// Parses the one-byte decimal number at `pos`.
fn parse_u8_at(bytes: &Vec<u8>, pos: usize) -> (r: Option<(u8, usize)>)
    requires
        pos <= bytes@.len(),
    ensures
        match r {
            Some(p) => {
                &&& pos <= p.1 <= bytes@.len()
                &&& spec_parse_u8(bytes@.skip(pos as int)) == Some(
                    (p.0 as int, bytes@.skip(p.1 as int)),
                )
            },
            None => spec_parse_u8(bytes@.skip(pos as int)) is None,
        },
{
    match scan_uint(bytes, pos, 255) {
        Some((v, p)) => {
            proof {
                assert(bytes@.skip(pos as int).skip(p - pos) =~= bytes@.skip(p as int));
            }
            Some((v as u8, p))
        },
        None => None,
    }
}

/// Whether the single byte at `pos` closes the object and ends the input.
fn at_final_rbrace(bytes: &Vec<u8>, pos: usize) -> (r: bool)
    requires
        pos <= bytes@.len(),
    ensures
        r == (bytes@.skip(pos as int) == seq![RBRACE]),
{
    let n = bytes.len();
    if pos < n && pos + 1 == n && bytes[pos] == RBRACE {
        proof {
            assert(bytes@.skip(pos as int) =~= seq![RBRACE]);
        }
        true
    } else {
        proof {
            let t = bytes@.skip(pos as int);
            if pos + 1 != bytes@.len() {
                assert(t.len() != 1);
            } else {
                assert(t[0] == bytes@[pos as int]);
            }
        }
        false
    }
}

/// Decodes a request from its canonical JSON encoding: the compositor
/// side of the protocol, and the exact inverse of `encode_request`.
#[verifier::rlimit(100)]
#[verifier::spinoff_prover]
pub fn decode_request(bytes: &Vec<u8>) -> (r: Option<Request>)
    ensures
        match r {
            Some(q) => spec_decode_request(bytes@) == Some(q@),
            None => spec_decode_request(bytes@) is None,
        },
{
    let t_ll = encode_request(&Request::ListLayouts);
    if crate::client::bytes_eq(bytes, &t_ll) {
        return Some(Request::ListLayouts);
    }
    let t_lo = encode_request(&Request::ListOutputs);
    if crate::client::bytes_eq(bytes, &t_lo) {
        return Some(Request::ListOutputs);
    }
    let t_lw = encode_request(&Request::ListWorkspaces);
    if crate::client::bytes_eq(bytes, &t_lw) {
        return Some(Request::ListWorkspaces);
    }
    proof {
        assert(bytes@.skip(0) =~= bytes@);
    }

    let mut h_nw = seg_cmd_prefix();
    let name_nw = seg_name(&Request::NewWorkspace { tag: Vec::new() });
    crate::client::append_bytes(&mut h_nw, &name_nw);
    let tag_key = seg_q_tag_key();
    crate::client::append_bytes(&mut h_nw, &tag_key);
    proof {
        assert(h_nw@ =~= head_new_workspace());
    }
    if let Some(p0) = strip_prefix_at(bytes, 0, &h_nw) {
        match parse_string_at(bytes, p0) {
            Some((tag, p1)) => {
                if at_final_rbrace(bytes, p1) {
                    return Some(Request::NewWorkspace { tag });
                }
                return None;
            },
            None => {
                return None;
            },
        }
    }

    let mut h_rw = seg_cmd_prefix();
    let name_rw = seg_name(&Request::RenameWorkspace { tag: Vec::new(), new_tag: Vec::new() });
    crate::client::append_bytes(&mut h_rw, &name_rw);
    let tag_key2 = seg_q_tag_key();
    crate::client::append_bytes(&mut h_rw, &tag_key2);
    proof {
        assert(h_rw@ =~= head_rename_workspace());
    }
    if let Some(p0) = strip_prefix_at(bytes, 0, &h_rw) {
        match parse_string_at(bytes, p0) {
            Some((tag, p1)) => {
                let nt_key = seg_new_tag_key();
                match strip_prefix_at(bytes, p1, &nt_key) {
                    Some(p2) => {
                        match parse_string_at(bytes, p2) {
                            Some((new_tag, p3)) => {
                                if at_final_rbrace(bytes, p3) {
                                    return Some(Request::RenameWorkspace { tag, new_tag });
                                }
                                return None;
                            },
                            None => {
                                return None;
                            },
                        }
                    },
                    None => {
                        return None;
                    },
                }
            },
            None => {
                return None;
            },
        }
    }

    let mut h_sf = seg_cmd_prefix();
    let name_sf = seg_name(&Request::SetFloating { x: 0, y: 0, width: 0, height: 0 });
    crate::client::append_bytes(&mut h_sf, &name_sf);
    let x_key = seg_q_x_key();
    crate::client::append_bytes(&mut h_sf, &x_key);
    proof {
        assert(h_sf@ =~= head_set_floating());
    }
    if let Some(p0) = strip_prefix_at(bytes, 0, &h_sf) {
        let (x, p1) = match parse_i32_at(bytes, p0) {
            Some(v) => v,
            None => {
                return None;
            },
        };
        let yk = seg_y_key();
        let p2 = match strip_prefix_at(bytes, p1, &yk) {
            Some(p) => p,
            None => {
                return None;
            },
        };
        let (y, p3) = match parse_i32_at(bytes, p2) {
            Some(v) => v,
            None => {
                return None;
            },
        };
        let wk = seg_width_key();
        let p4 = match strip_prefix_at(bytes, p3, &wk) {
            Some(p) => p,
            None => {
                return None;
            },
        };
        let (width, p5) = match parse_i32_at(bytes, p4) {
            Some(v) => v,
            None => {
                return None;
            },
        };
        let hk = seg_height_key();
        let p6 = match strip_prefix_at(bytes, p5, &hk) {
            Some(p) => p,
            None => {
                return None;
            },
        };
        let (height, p7) = match parse_i32_at(bytes, p6) {
            Some(v) => v,
            None => {
                return None;
            },
        };
        if at_final_rbrace(bytes, p7) {
            return Some(Request::SetFloating { x, y, width, height });
        }
        return None;
    }

    let mut h_sl = seg_cmd_prefix();
    let name_sl = seg_name(&Request::SetLayout { layout_number: 0 });
    crate::client::append_bytes(&mut h_sl, &name_sl);
    let ln_key = seg_q_layout_number_key();
    crate::client::append_bytes(&mut h_sl, &ln_key);
    proof {
        assert(h_sl@ =~= head_set_layout());
    }
    if let Some(p0) = strip_prefix_at(bytes, 0, &h_sl) {
        let (layout_number, p1) = match parse_u8_at(bytes, p0) {
            Some(v) => v,
            None => {
                return None;
            },
        };
        if at_final_rbrace(bytes, p1) {
            return Some(Request::SetLayout { layout_number });
        }
        return None;
    }

    None
}

/// Frames a message: the payload's length as a four-byte little-endian
/// prefix, then the payload.
pub fn frame_message(payload: &Vec<u8>) -> (r: Vec<u8>)
    requires
        payload@.len() <= u32::MAX,
    ensures
        r@ == vstd::bytes::spec_u32_to_le_bytes(payload@.len() as u32) + payload@,
{
    let size: u32 = payload.len() as u32;
    let mut out = vstd::bytes::u32_to_le_bytes(size);
    crate::client::append_bytes(&mut out, payload);
    out
}

/// Reads a frame's length prefix.
pub fn frame_size(header: &Vec<u8>) -> (r: u32)
    requires
        header@.len() == 4,
    ensures
        r == vstd::bytes::spec_u32_from_le_bytes(header@),
{
    vstd::bytes::u32_from_le_bytes(header.as_slice())
}

/// Splits one whole framed message: the payload, if the length prefix
/// matches exactly the bytes that follow it.
pub fn unframe(bytes: &Vec<u8>) -> (r: Option<Vec<u8>>)
    ensures
        match r {
            Some(p) => {
                &&& bytes@.len() >= 4
                &&& vstd::bytes::spec_u32_from_le_bytes(bytes@.take(4)) == bytes@.len() - 4
                &&& p@ == bytes@.skip(4)
            },
            None => bytes@.len() < 4 || vstd::bytes::spec_u32_from_le_bytes(bytes@.take(4))
                != bytes@.len() - 4,
        },
{
    let n = bytes.len();
    if n < 4 {
        return None;
    }
    let mut header: Vec<u8> = Vec::new();
    header.push(bytes[0]);
    header.push(bytes[1]);
    header.push(bytes[2]);
    header.push(bytes[3]);
    proof {
        assert(header@ =~= bytes@.take(4));
    }
    let size = frame_size(&header);
    if (size as usize) != n - 4 {
        return None;
    }
    let mut payload: Vec<u8> = Vec::new();
    let mut i: usize = 4;
    while i < n
        invariant
            4 <= i <= n,
            n == bytes@.len(),
            payload@ == bytes@.skip(4).take(i - 4),
        decreases n - i,
    {
        payload.push(bytes[i]);
        proof {
            assert(bytes@.skip(4).take(i - 4 + 1) =~= bytes@.skip(4).take(i - 4).push(
                bytes@[i as int],
            ));
        }
        i += 1;
    }
    proof {
        assert(bytes@.skip(4).take(n - 4) =~= bytes@.skip(4));
    }
    Some(payload)
}

/// The framing round trip law: a framed message splits back into exactly
/// its payload, for every payload that fits a frame.
pub proof fn lemma_frame_round_trip(payload: Seq<u8>)
    requires
        payload.len() <= u32::MAX,
    ensures
        ({
            let framed = vstd::bytes::spec_u32_to_le_bytes(payload.len() as u32) + payload;
            &&& framed.len() == payload.len() + 4
            &&& vstd::bytes::spec_u32_from_le_bytes(framed.take(4)) == payload.len()
            &&& framed.skip(4) == payload
        }),
{
    vstd::bytes::lemma_auto_spec_u32_to_from_le_bytes();
    let framed = vstd::bytes::spec_u32_to_le_bytes(payload.len() as u32) + payload;
    assert(framed.take(4) =~= vstd::bytes::spec_u32_to_le_bytes(payload.len() as u32));
    assert(framed.skip(4) =~= payload);
}

/// The wire round trip law: encoding a well-formed request, framing it,
/// and reading the frame back on the peer decodes to the same request.
pub proof fn lemma_wire_round_trip(r: RequestView)
    requires
        r.wf(),
        spec_encode_request(r).len() <= u32::MAX,
    ensures
        ({
            let enc = spec_encode_request(r);
            let framed = vstd::bytes::spec_u32_to_le_bytes(enc.len() as u32) + enc;
            &&& vstd::bytes::spec_u32_from_le_bytes(framed.take(4)) == framed.len() - 4
            &&& spec_decode_request(framed.skip(4)) == Some(r)
        }),
{
    lemma_frame_round_trip(spec_encode_request(r));
    lemma_request_round_trip(r);
}

/// Turns one stdin line into the floating-geometry request it asks for:
/// a request exactly when the line matches the geometry grammar, and no
/// request at all for any other line.
pub fn floating_request(line: &Vec<u8>) -> (r: Option<Request>)
    ensures
        match crate::geometry::spec_parse_geometry(line@) {
            Some(g) => {
                &&& r is Some
                &&& r->0@ == (RequestView::SetFloating {
                    x: g.0 as int,
                    y: g.1 as int,
                    width: g.2 as int,
                    height: g.3 as int,
                })
            },
            None => r is None,
        },
{
    match crate::geometry::parse_geometry(line) {
        Some((x, y, width, height)) => Some(Request::SetFloating { x, y, width, height }),
        None => None,
    }
}

/// The bytes of the success response text `ok`.
pub open spec fn ok_text() -> Seq<u8> {
    seq!['o' as u8, 'k' as u8]
}

/// A response body: a bare JSON string, if the body is exactly one.
pub open spec fn spec_body_string(s: Seq<u8>) -> Option<Seq<u8>> {
    if s.len() > 0 && s[0] == QUOTE {
        match spec_unescape(s.drop_first()) {
            Some(p) => if p.1.len() == 0 {
                Some(p.0)
            } else {
                None
            },
            None => None,
        }
    } else {
        None
    }
}

/// How a mutating command's response is read: success, a domain error with
/// the peer's verbatim message, or a malformed body.
#[derive(Clone, Debug, PartialEq, Eq)]
pub enum OkResponse {
    Accepted,
    Rejected(Vec<u8>),
    Malformed,
}

/// Interprets the body of a mutating command's response: the bare JSON
/// string `"ok"` is success; any other string is a domain error carried
/// verbatim; a body that is not one whole JSON string is malformed.
pub fn parse_ok_response(body: &Vec<u8>) -> (r: OkResponse)
    ensures
        match spec_body_string(body@) {
            Some(t) => if t == ok_text() {
                r is Accepted
            } else {
                r is Rejected && r->0@ == t
            },
            None => r is Malformed,
        },
{
    let n = body.len();
    if n == 0 {
        return OkResponse::Malformed;
    }
    if body[0] != QUOTE {
        return OkResponse::Malformed;
    }
    proof {
        assert(body@.skip(1) =~= body@.drop_first());
    }
    match parse_string_at(body, 1) {
        Some((text, p)) => {
            if p != n {
                proof {
                    assert(body@.skip(p as int).len() != 0);
                }
                return OkResponse::Malformed;
            }
            proof {
                assert(body@.skip(p as int).len() == 0);
            }
            let mut ok: Vec<u8> = Vec::new();
            ok.push('o' as u8);
            ok.push('k' as u8);
            proof {
                assert(ok@ =~= ok_text());
            }
            if crate::client::bytes_eq(&text, &ok) {
                OkResponse::Accepted
            } else {
                OkResponse::Rejected(text)
            }
        },
        None => OkResponse::Malformed,
    }
}

} // verus!
