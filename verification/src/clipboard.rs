//! Copy text to the clipboard from inside the TUI.
//!
//! Two transports, both always attempted, because neither one covers every
//! terminal this runs in:
//!
//! - **OSC 52**, written to stdout. The terminal you are *looking at* puts
//!   the text on its own clipboard, so it works over SSH -- the phone-over-SSH
//!   case this app is deliberately usable in -- and through tmux, whose
//!   default `set-clipboard external` forwards it to the outer terminal.
//!   Terminal.app ignores it.
//! - **A native tool** (`pbcopy`, `wl-copy`, `xclip`, `xsel`), when one is on
//!   `PATH`. Local runs get the OS clipboard even in a terminal that drops
//!   OSC 52; over SSH it lands on the remote machine, which is harmless.

use vstd::prelude::*;
use vstd::string::*;

use crate::dex::{absent, answers};
use crate::text::{concat3, decimal, decimal_of, to_chars};

verus! {

/// The character for six bits, in the standard base64 alphabet.
#[verifier::opaque]
pub open spec fn letter(v: int) -> char {
    if v < 26 {
        (65 + v) as u8 as char
    } else if v < 52 {
        (71 + v) as u8 as char
    } else if v < 62 {
        (v - 4) as u8 as char
    } else if v == 62 {
        '+'
    } else {
        '/'
    }
}

/// Three bytes as one number, with nothing in place of those that are missing.
pub open spec fn packed(a: int, b: int, c: int) -> int {
    a * 65536 + b * 256 + c
}

/// The four letters of three bytes.
pub open spec fn quad(n: int) -> Seq<char> {
    seq![
        letter(n / 262144),
        letter((n / 4096) % 64),
        letter((n / 64) % 64),
        letter(n % 64),
    ]
}

/// Standard base64 with padding (RFC 4648 section 4).
pub open spec fn base64_of(b: Seq<u8>) -> Seq<char>
    decreases b.len(),
{
    if b.len() == 0 {
        Seq::empty()
    } else if b.len() == 1 {
        quad(packed(b[0] as int, 0, 0)).take(2) + seq!['=', '=']
    } else if b.len() == 2 {
        quad(packed(b[0] as int, b[1] as int, 0)).take(3) + seq!['=']
    } else {
        quad(packed(b[0] as int, b[1] as int, b[2] as int)) + base64_of(b.skip(3))
    }
}

fn letter_for(v: u32) -> (r: char)
    requires
        v < 64,
    ensures
        r == letter(v as int),
{
    proof {
        reveal(letter);
    }
    if v < 26 {
        (65u8 + v as u8) as char
    } else if v < 52 {
        (71u8 + v as u8) as char
    } else if v < 62 {
        (v as u8 - 4u8) as char
    } else if v == 62 {
        '+'
    } else {
        '/'
    }
}

/// Standard base64 with padding (RFC 4648 section 4). Written out because it
/// is a handful of lines and the alternative is a crate for one call site.
pub fn base64(input: &[u8]) -> (r: String)
    ensures
        r@ == base64_of(input@),
{
    let mut out = String::new();
    let mut i: usize = 0;
    assert(input@.skip(0) =~= input@);
    assert(out@ + base64_of(input@) =~= base64_of(input@));
    while i < input.len()
        invariant
            i <= input@.len(),
            out@ + base64_of(input@.skip(i as int)) == base64_of(input@),
        decreases input@.len() - i,
    {
        let ghost rest = input@.skip(i as int);
        let ghost so_far = out@;
        let left: usize = input.len() - i;
        let a: u32 = input[i] as u32;
        let b: u32 = if left > 1 {
            input[i + 1] as u32
        } else {
            0
        };
        let c: u32 = if left > 2 {
            input[i + 2] as u32
        } else {
            0
        };
        let n: u32 = a * 65536 + b * 256 + c;
        out.push(letter_for(n / 262144));
        out.push(letter_for((n / 4096) % 64));
        if left > 1 {
            out.push(letter_for((n / 64) % 64));
        } else {
            out.push('=');
        }
        if left > 2 {
            out.push(letter_for(n % 64));
        } else {
            out.push('=');
        }
        proof {
            let q = quad(n as int);
            if left == 1 {
                assert(out@ =~= so_far + base64_of(rest));
            } else if left == 2 {
                assert(out@ =~= so_far + base64_of(rest));
            } else {
                assert(out@ =~= so_far + q);
                assert(rest.skip(3) =~= input@.skip(i + 3));
                assert(so_far + (q + base64_of(rest.skip(3))) =~= out@ + base64_of(rest.skip(3)));
            }
        }
        if left <= 3 {
            proof {
                if left == 3 {
                    assert(rest.skip(3) =~= Seq::empty());
                    assert(out@ + base64_of(rest.skip(3)) =~= out@);
                }
            }
            return out;
        }
        i = i + 3;
    }
    assert(out@ + base64_of(input@.skip(i as int)) =~= out@);
    out
}

/// What six bits a letter stands for.
#[verifier::opaque]
pub open spec fn value_of(c: char) -> int {
    let n = c as int;
    if 65 <= n <= 90 {
        n - 65
    } else if 97 <= n <= 122 {
        n - 71
    } else if 48 <= n <= 57 {
        n + 4
    } else if c == '+' {
        62
    } else {
        63
    }
}

/// The number a group of four characters stands for.
pub open spec fn unpacked(s: Seq<char>) -> int {
    value_of(s[0]) * 262144 + value_of(s[1]) * 4096 + (if s[2] == '=' {
        0
    } else {
        value_of(s[2]) * 64
    }) + (if s[3] == '=' {
        0
    } else {
        value_of(s[3])
    })
}

/// The bytes of such a number: as many as the group has letters for.
pub open spec fn group_bytes(s: Seq<char>) -> Seq<u8> {
    let n = unpacked(s);
    if s[2] == '=' {
        seq![(n / 65536) as u8]
    } else if s[3] == '=' {
        seq![(n / 65536) as u8, ((n / 256) % 256) as u8]
    } else {
        seq![(n / 65536) as u8, ((n / 256) % 256) as u8, (n % 256) as u8]
    }
}

/// What base64 text stands for: the inverse of the encoding, group by group.
pub open spec fn unbase64(s: Seq<char>) -> Seq<u8>
    decreases s.len(),
{
    if s.len() < 4 {
        Seq::empty()
    } else {
        group_bytes(s.take(4)) + unbase64(s.skip(4))
    }
}

proof fn lemma_letter(v: int)
    requires
        0 <= v < 64,
    ensures
        value_of(letter(v)) == v,
        letter(v) != '=',
{
    reveal(letter);
    reveal(value_of);
}

proof fn lemma_bytes_of(a: int, b: int, c: int)
    requires
        0 <= a < 256,
        0 <= b < 256,
        0 <= c < 256,
    ensures
        0 <= packed(a, b, c) < 16777216,
        packed(a, b, c) / 65536 == a,
        (packed(a, b, c) / 256) % 256 == b,
        packed(a, b, c) % 256 == c,
        c == 0 ==> packed(a, b, c) % 64 == 0,
        b == 0 && c == 0 ==> (packed(a, b, c) / 64) % 64 == 0,
{
    let n = packed(a, b, c);
    assert(n / 256 == a * 256 + b);
    assert(n / 65536 == a);
    assert((a * 256 + b) % 256 == b);
    if c == 0 {
        assert(n == 64 * (a * 1024 + b * 4));
    }
    if b == 0 && c == 0 {
        assert(n / 64 == a * 1024);
        assert(a * 1024 == 64 * (a * 16));
    }
}

proof fn lemma_group(n: int)
    requires
        0 <= n < 16777216,
    ensures
        value_of(quad(n)[0]) * 262144 + value_of(quad(n)[1]) * 4096 + value_of(quad(n)[2]) * 64
            + value_of(quad(n)[3]) == n,
        value_of(quad(n)[0]) == n / 262144,
        value_of(quad(n)[1]) == (n / 4096) % 64,
        value_of(quad(n)[2]) == (n / 64) % 64,
        value_of(quad(n)[3]) == n % 64,
        quad(n)[2] != '=',
        quad(n)[3] != '=',
{
    lemma_letter(n / 262144);
    lemma_letter((n / 4096) % 64);
    lemma_letter((n / 64) % 64);
    lemma_letter(n % 64);
}

proof fn lemma_one_byte(a: u8)
    ensures
        group_bytes(quad(packed(a as int, 0, 0)).take(2) + seq!['=', '=']) == seq![a],
{
    let n = packed(a as int, 0, 0);
    lemma_bytes_of(a as int, 0, 0);
    lemma_group(n);
    let s = quad(n).take(2) + seq!['=', '='];
    assert(s[0] == quad(n)[0] && s[1] == quad(n)[1] && s[2] == '=' && s[3] == '=');
    assert(unpacked(s) == n);
}

proof fn lemma_two_bytes(a: u8, b: u8)
    ensures
        group_bytes(quad(packed(a as int, b as int, 0)).take(3) + seq!['=']) == seq![a, b],
{
    let n = packed(a as int, b as int, 0);
    lemma_bytes_of(a as int, b as int, 0);
    lemma_group(n);
    let s = quad(n).take(3) + seq!['='];
    assert(s[0] == quad(n)[0] && s[1] == quad(n)[1] && s[2] == quad(n)[2] && s[3] == '=');
    assert(unpacked(s) == n);
}

proof fn lemma_three_bytes(a: u8, b: u8, c: u8)
    ensures
        group_bytes(quad(packed(a as int, b as int, c as int))) == seq![a, b, c],
{
    let n = packed(a as int, b as int, c as int);
    lemma_bytes_of(a as int, b as int, c as int);
    lemma_group(n);
    assert(unpacked(quad(n)) == n);
}

/// Nothing is lost on the way to the clipboard: decoding what was encoded gives
/// back the same bytes, and every group is four characters.
pub proof fn law_base64_round_trips(b: Seq<u8>)
    ensures
        unbase64(base64_of(b)) == b,
        base64_of(b).len() == 4 * ((b.len() + 2) / 3),
    decreases b.len(),
{
    let s = base64_of(b);
    if b.len() == 0 {
        assert(unbase64(s) =~= b);
    } else if b.len() == 1 {
        lemma_one_byte(b[0]);
        assert(s.take(4) =~= s);
        assert(s.skip(4) =~= Seq::empty());
        assert(seq![b[0]] + unbase64(s.skip(4)) =~= b);
    } else if b.len() == 2 {
        lemma_two_bytes(b[0], b[1]);
        assert(s.take(4) =~= s);
        assert(s.skip(4) =~= Seq::empty());
        assert(seq![b[0], b[1]] + unbase64(s.skip(4)) =~= b);
    } else {
        lemma_three_bytes(b[0], b[1], b[2]);
        law_base64_round_trips(b.skip(3));
        assert(s.take(4) =~= quad(packed(b[0] as int, b[1] as int, b[2] as int)));
        assert(s.skip(4) =~= base64_of(b.skip(3)));
        assert(seq![b[0], b[1], b[2]] + b.skip(3) =~= b);
    }
}

/// The bytes of a text whose characters are each one byte.
pub open spec fn narrow(s: Seq<char>) -> Seq<u8> {
    s.map_values(|c: char| c as u8)
}

/// The escape that asks the terminal to set its clipboard: `ESC ] 52 ; c ;
/// <base64> BEL`.
pub open spec fn osc52_of(text: &str) -> Seq<u8> {
    seq![0x1bu8, 0x5d, 0x35, 0x32, 0x3b, 0x63, 0x3b] + narrow(base64_of(text.spec_bytes())) + seq![
        0x07u8,
    ]
}

/// The escape that asks the terminal to set its clipboard: `ESC ] 52 ; c ;
/// <base64> BEL`. `c` is the system clipboard selection; `BEL` terminates as
/// widely as `ESC \` and survives more multiplexers.
pub fn osc52(text: &str) -> (r: Vec<u8>)
    ensures
        r@ == osc52_of(text),
{
    let mut out: Vec<u8> = vec![0x1b, 0x5d, 0x35, 0x32, 0x3b, 0x63, 0x3b];
    let ghost head = seq![0x1bu8, 0x5d, 0x35, 0x32, 0x3b, 0x63, 0x3b];
    assert(out@ =~= head);
    let body = to_chars(base64(text.as_bytes()).as_str());
    let ghost bytes = narrow(body@);
    assert(head + bytes.take(0) =~= head);
    for i in 0..body.len()
        invariant
            bytes == narrow(body@),
            out@ == head + bytes.take(i as int),
    {
        proof {
            assert(head + bytes.take(i + 1) =~= (head + bytes.take(i as int)).push(bytes[i as int]));
        }
        out.push(body[i] as u8);
    }
    assert(bytes.take(bytes.len() as int) =~= bytes);
    out.push(0x07);
    assert(out@ =~= osc52_of(text));
    out
}

/// A program to run, and what to hand it.
#[derive(Debug, Clone, Copy, PartialEq, Eq)]
pub struct Tool {
    pub name: &'static str,
    pub args: &'static [&'static str],
}

/// What a tool is.
pub ghost struct ToolView {
    pub name: Seq<char>,
    pub args: Seq<Seq<char>>,
}

impl View for Tool {
    type V = ToolView;

    open spec fn view(&self) -> ToolView {
        ToolView { name: self.name@, args: crate::icons::glyphs(self.args@) }
    }
}

/// What each tool of a list is.
pub open spec fn tool_views(tools: Seq<Tool>) -> Seq<ToolView> {
    tools.map_values(|t: Tool| t@)
}

/// The native clipboard writers to try, in order. On Linux a Wayland session
/// with `wl-copy` wins over an `xclip` left over from X.
pub open spec fn tools_for(macos: bool) -> Seq<ToolView> {
    if macos {
        seq![ToolView { name: "pbcopy"@, args: Seq::empty() }]
    } else {
        seq![
            ToolView { name: "wl-copy"@, args: Seq::empty() },
            ToolView { name: "xclip"@, args: seq!["-selection"@, "clipboard"@] },
            ToolView { name: "xsel"@, args: seq!["--clipboard"@, "--input"@] },
        ]
    }
}

/// The native clipboard writers to try, in order.
pub fn candidates(macos: bool) -> (r: Vec<Tool>)
    ensures
        tool_views(r@) == tools_for(macos),
{
    if macos {
        let r = vec![Tool { name: "pbcopy", args: &[] }];
        assert(r@[0]@.args =~= Seq::empty());
        assert(tool_views(r@) =~= tools_for(macos));
        r
    } else {
        let r = vec![
            Tool { name: "wl-copy", args: &[] },
            Tool { name: "xclip", args: &["-selection", "clipboard"] },
            Tool { name: "xsel", args: &["--clipboard", "--input"] },
        ];
        assert(r@[0]@.args =~= Seq::empty());
        assert(r@[1]@.args =~= seq!["-selection"@, "clipboard"@]);
        assert(r@[2]@.args =~= seq!["--clipboard"@, "--input"@]);
        assert(tool_views(r@) =~= tools_for(macos));
        r
    }
}

/// The names of a list of tools.
pub open spec fn tool_names(tools: Seq<Tool>) -> Seq<Seq<char>> {
    tools.map_values(|t: Tool| t.name@)
}

/// The native clipboard writer to fall back on, or `None` when nothing suitable
/// is there. Candidates are tried in order.
pub fn native_tool_from<F: Fn(&str) -> bool>(tools: &Vec<Tool>, there: F) -> (r: Option<Tool>)
    requires
        forall|s: &str| call_requires(there, (s,)),
    ensures
        match r {
            Some(t) => exists|i: int|
                0 <= i < tools@.len() && t == tools@[i] && answers(there, t.name@, true)
                    && #[trigger] absent(tool_names(tools@), there, i),
            None => absent(tool_names(tools@), there, tools@.len() as int),
        },
{
    let ghost names = tool_names(tools@);
    for i in 0..tools.len()
        invariant
            names == tool_names(tools@),
            forall|s: &str| call_requires(there, (s,)),
            absent(names, there, i as int),
    {
        let name = tools[i].name;
        assert(names[i as int] == name@);
        let found = there(name);
        assert(answers(there, name@, found));
        if found {
            return Some(tools[i]);
        }
    }
    None
}

/// How handing text to a native clipboard tool went.
#[derive(Debug)]
pub enum Handed {
    /// There is no such tool here.
    NoTool,
    /// The tool took it.
    Took(String),
    /// The tool exited with this status instead of succeeding.
    Exited(String, String),
    /// The tool could not be run, or did not read what it was handed.
    Failed(String, String),
}

/// The line the log gets for a copy of so many bytes.
pub fn copy_line(handed: &Handed, bytes: usize) -> (r: String)
    ensures
        r@ == (match *handed {
            Handed::NoTool => "osc52 only, "@ + decimal_of(bytes as nat) + " bytes"@,
            Handed::Took(tool) => "osc52 + "@ + tool@ + ", "@ + decimal_of(bytes as nat)
                + " bytes"@,
            Handed::Exited(tool, status) => tool@ + " exited "@ + status@,
            Handed::Failed(tool, e) => tool@ + " failed to run: "@ + e@,
        }),
{
    match handed {
        Handed::NoTool => concat3("osc52 only, ", decimal(bytes as u64).as_str(), " bytes"),
        Handed::Took(tool) => {
            let mut out = concat3("osc52 + ", tool.as_str(), ", ");
            out.append(decimal(bytes as u64).as_str());
            out.append(" bytes");
            out
        },
        Handed::Exited(tool, status) => concat3(tool.as_str(), " exited ", status.as_str()),
        Handed::Failed(tool, e) => concat3(tool.as_str(), " failed to run: ", e.as_str()),
    }
}

/// The alphabet is the standard one: the capitals, then the small letters, then
/// the digits, then `+` and `/`.
pub proof fn law_the_alphabet_is_the_standard_one(v: int)
    requires
        0 <= v < 64,
    ensures
        v < 26 ==> letter(v) as int == 'A' as int + v,
        26 <= v < 52 ==> letter(v) as int == 'a' as int + (v - 26),
        52 <= v < 62 ==> letter(v) as int == '0' as int + (v - 52),
        v == 62 ==> letter(v) == '+',
        v == 63 ==> letter(v) == '/',
{
    reveal(letter);
}

/// Four letters stand for every three bytes begun, and what is missing of the
/// last three is made up with `=`; the escape that carries them starts and ends
/// as terminals expect.
#[verifier::spinoff_prover]
pub proof fn law_base64_is_padded(b: Seq<u8>)
    ensures
        base64_of(b).len() == 4 * ((b.len() + 2) / 3),
        b.len() % 3 == 1 ==> base64_of(b).last() == '=' && base64_of(b)[base64_of(b).len() - 2]
            == '=',
        b.len() % 3 == 2 ==> base64_of(b).last() == '=',
    decreases b.len(),
{
    if b.len() >= 3 {
        let tail = base64_of(b.skip(3));
        law_base64_is_padded(b.skip(3));
        lemma_four_more(b);
        assert(b.skip(3).len() == b.len() - 3);
        if b.len() % 3 != 0 {
            assert(base64_of(b).skip(4)[tail.len() - 1] == base64_of(b).last());
            assert(base64_of(b).skip(4)[tail.len() - 2] == base64_of(b)[base64_of(b).len() - 2]);
        }
    }
}

#[verifier::spinoff_prover]
proof fn lemma_four_more(b: Seq<u8>)
    requires
        b.len() >= 3,
    ensures
        base64_of(b).len() == 4 + base64_of(b.skip(3)).len(),
        base64_of(b).skip(4) == base64_of(b.skip(3)),
{
    let q = quad(packed(b[0] as int, b[1] as int, b[2] as int));
    assert(q.len() == 4);
    assert((q + base64_of(b.skip(3))).skip(4) =~= base64_of(b.skip(3)));
}

#[verifier::spinoff_prover]
proof fn lemma_sixes(x: int, y: int, z: int)
    requires
        0 <= x < 256,
        0 <= y < 256,
        0 <= z < 256,
    ensures
        packed(x, y, z) / 262144 == x / 4,
        (packed(x, y, z) / 4096) % 64 == (x % 4) * 16 + y / 16,
        (packed(x, y, z) / 64) % 64 == (y % 16) * 4 + z / 64,
        packed(x, y, z) % 64 == z % 64,
{
    let n = packed(x, y, z);
    assert(n == (x / 4) * 262144 + (x % 4) * 65536 + y * 256 + z);
    assert(n / 4096 == x * 16 + y / 16);
    assert(n / 64 == x * 1024 + y * 4 + z / 64);
}

/// The first letters of a text's base64 depend on its first bytes alone: six
/// bits for each letter, from the highest on.
#[verifier::spinoff_prover]
pub proof fn law_base64_goes_by_six_bits(b: Seq<u8>)
    requires
        b.len() >= 3,
    ensures
        base64_of(b)[0] == letter(b[0] as int / 4),
        base64_of(b)[1] == letter((b[0] as int % 4) * 16 + b[1] as int / 16),
        base64_of(b)[2] == letter((b[1] as int % 16) * 4 + b[2] as int / 64),
        base64_of(b)[3] == letter(b[2] as int % 64),
        base64_of(b).skip(4) == base64_of(b.skip(3)),
{
    let (x, y, z) = (b[0] as int, b[1] as int, b[2] as int);
    lemma_sixes(x, y, z);
    lemma_four_more(b);
    let q = quad(packed(x, y, z));
    assert(base64_of(b)[0] == q[0] && base64_of(b)[1] == q[1]);
    assert(base64_of(b)[2] == q[2] && base64_of(b)[3] == q[3]);
}

/// Each system's own clipboard writers are tried, and on Linux Wayland's before
/// those of X.
pub proof fn law_the_tools_are_those_of_the_system()
    ensures
        tools_for(true).len() == 1 && tools_for(true)[0].name == "pbcopy"@,
        tools_for(false).len() == 3 && tools_for(false)[0].name == "wl-copy"@,
        tools_for(false)[1].name == "xclip"@ && tools_for(false)[2].name == "xsel"@,
        tools_for(true)[0].args.len() == 0 && tools_for(false)[0].args.len() == 0,
{
}

} // verus!
