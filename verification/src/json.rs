//! The deterministic textual form of a policy document: a pretty-printed
//! structured rendering with two-space indentation, fixed key order, and
//! every character outside the printable range escaped, so the whole text
//! is plain bytes the transport encoding can carry losslessly.

use vstd::prelude::*;
use vstd::string::StringExecFns;
use crate::oci::{Mount, MountV, Process, ProcessV, Spec, SpecV, User};
use crate::policy::{CcPolicy, CcPolicyV, ContainerPolicy, ContainerPolicyV, Custom, CustomV, NamedPolicy, NamedPolicyV};

verus! {

/// A hexadecimal digit.
pub open spec fn hex_digit(n: int) -> char {
    if n == 0 {
        '0'
    } else if n == 1 {
        '1'
    } else if n == 2 {
        '2'
    } else if n == 3 {
        '3'
    } else if n == 4 {
        '4'
    } else if n == 5 {
        '5'
    } else if n == 6 {
        '6'
    } else if n == 7 {
        '7'
    } else if n == 8 {
        '8'
    } else if n == 9 {
        '9'
    } else if n == 10 {
        'a'
    } else if n == 11 {
        'b'
    } else if n == 12 {
        'c'
    } else if n == 13 {
        'd'
    } else if n == 14 {
        'e'
    } else {
        'f'
    }
}

/// A sixteen-bit value as four hexadecimal digits.
pub open spec fn hex4(v: int) -> Seq<char> {
    seq![
        hex_digit((v / 4096) % 16),
        hex_digit((v / 256) % 16),
        hex_digit((v / 16) % 16),
        hex_digit(v % 16),
    ]
}

/// A decimal digit.
pub open spec fn dec_digit(n: int) -> char {
    if n == 0 {
        '0'
    } else if n == 1 {
        '1'
    } else if n == 2 {
        '2'
    } else if n == 3 {
        '3'
    } else if n == 4 {
        '4'
    } else if n == 5 {
        '5'
    } else if n == 6 {
        '6'
    } else if n == 7 {
        '7'
    } else if n == 8 {
        '8'
    } else {
        '9'
    }
}

/// A non-negative number in decimal.
pub open spec fn dec_number(n: int) -> Seq<char>
    decreases n,
{
    if n < 10 {
        seq![dec_digit(n)]
    } else {
        dec_number(n / 10) + seq![dec_digit(n % 10)]
    }
}

/// The escaped rendering of one character inside a quoted string: quote
/// and backslash get a backslash escape, anything outside the printable
/// range is a `\\u` escape (two of them for a supplementary-plane
/// character), and printable characters stand for themselves.
pub open spec fn esc_char(c: char) -> Seq<char> {
    let v = c as u32;
    if c == '"' {
        seq!['\\', '"']
    } else if c == '\\' {
        seq!['\\', '\\']
    } else if v >= 0x20 && v <= 0x7E {
        seq![c]
    } else if v <= 0xFFFF {
        seq!['\\', 'u'] + hex4(v as int)
    } else {
        seq!['\\', 'u'] + hex4(0xD800 + (v as int - 0x10000) / 1024) + seq!['\\', 'u'] + hex4(
            0xDC00 + (v as int - 0x10000) % 1024,
        )
    }
}

/// The escaped rendering of a whole string's characters.
pub open spec fn esc_str(s: Seq<char>) -> Seq<char>
    decreases s.len(),
{
    if s.len() == 0 {
        Seq::empty()
    } else {
        esc_char(s[0]) + esc_str(s.subrange(1, s.len() as int))
    }
}

/// A quoted, escaped string.
#[verifier::opaque]
pub open spec fn json_string(s: Seq<char>) -> Seq<char> {
    seq!['"'] + esc_str(s) + seq!['"']
}

/// Two spaces per indentation level.
pub open spec fn indent(d: int) -> Seq<char>
    decreases d,
{
    if d <= 0 {
        Seq::empty()
    } else {
        indent(d - 1) + "  "@
    }
}

/// The elements of a string array from position `i` on, each on its own
/// indented line.
#[verifier::opaque]
pub open spec fn json_str_items(items: Seq<Seq<char>>, i: int, d: int) -> Seq<char>
    decreases items.len() - i,
{
    if i < 0 || i >= items.len() {
        Seq::empty()
    } else {
        (if i == 0 {
            "\n"@
        } else {
            ",\n"@
        }) + indent(d + 1) + json_string(items[i]) + json_str_items(items, i + 1, d)
    }
}

/// A pretty-printed array of strings.
#[verifier::opaque]
pub open spec fn json_str_array(items: Seq<Seq<char>>, d: int) -> Seq<char> {
    if items.len() == 0 {
        "[]"@
    } else {
        "["@ + json_str_items(items, 0, d) + "\n"@ + indent(d) + "]"@
    }
}

/// A pretty-printed user object: uid and gid.
#[verifier::opaque]
pub open spec fn json_user(u: User, d: int) -> Seq<char> {
    "{\n"@ + indent(d + 1) + "\"uid\": "@ + dec_number(u.uid as int) + ",\n"@ + indent(d + 1)
        + "\"gid\": "@ + dec_number(u.gid as int) + "\n"@ + indent(d) + "}"@
}

/// A pretty-printed process object: user, the argument and environment
/// lists when present, and the working directory.
/// The opening of a process object up to its user field.
#[verifier::opaque]
pub open spec fn json_process_head(p: ProcessV, d: int) -> Seq<char> {
    "{\n"@ + indent(d + 1) + "\"user\": "@ + json_user(p.user, d + 1)
}

/// The argument-list field of a process object, when present.
#[verifier::opaque]
pub open spec fn json_process_args(p: ProcessV, d: int) -> Seq<char> {
    match p.args {
        Some(args) => ",\n"@ + indent(d + 1) + "\"args\": "@ + json_str_array(args, d + 1),
        None => Seq::empty(),
    }
}

/// The environment-list field of a process object, when present.
#[verifier::opaque]
pub open spec fn json_process_env(p: ProcessV, d: int) -> Seq<char> {
    match p.env {
        Some(env) => ",\n"@ + indent(d + 1) + "\"env\": "@ + json_str_array(env, d + 1),
        None => Seq::empty(),
    }
}

/// The working-directory field and closing of a process object.
#[verifier::opaque]
pub open spec fn json_process_tail(p: ProcessV, d: int) -> Seq<char> {
    ",\n"@ + indent(d + 1) + "\"cwd\": "@ + json_string(p.cwd) + "\n"@ + indent(d) + "}"@
}

/// A pretty-printed process object, from its four parts.
#[verifier::opaque]
pub open spec fn json_process(p: ProcessV, d: int) -> Seq<char> {
    json_process_head(p, d) + json_process_args(p, d) + json_process_env(p, d)
        + json_process_tail(p, d)
}

/// A pretty-printed mount object: destination, type, source, options.
#[verifier::opaque]
pub open spec fn json_mount(m: MountV, d: int) -> Seq<char> {
    "{\n"@ + indent(d + 1) + "\"destination\": "@ + json_string(m.destination) + ",\n"@ + indent(
        d + 1,
    ) + "\"type\": "@ + json_string(m.typ) + ",\n"@ + indent(d + 1) + "\"source\": "@
        + json_string(m.source) + ",\n"@ + indent(d + 1) + "\"options\": "@ + json_str_array(
        m.options,
        d + 1,
    ) + "\n"@ + indent(d) + "}"@
}

/// The elements of a mount array from position `i` on.
#[verifier::opaque]
pub open spec fn json_mount_items(ms: Seq<MountV>, i: int, d: int) -> Seq<char>
    decreases ms.len() - i,
{
    if i < 0 || i >= ms.len() {
        Seq::empty()
    } else {
        (if i == 0 {
            "\n"@
        } else {
            ",\n"@
        }) + indent(d + 1) + json_mount(ms[i], d + 1) + json_mount_items(ms, i + 1, d)
    }
}

/// A pretty-printed array of mounts.
#[verifier::opaque]
pub open spec fn json_mounts(ms: Seq<MountV>, d: int) -> Seq<char> {
    if ms.len() == 0 {
        "[]"@
    } else {
        "["@ + json_mount_items(ms, 0, d) + "\n"@ + indent(d) + "]"@
    }
}

/// A pretty-printed allow-spec object: the version string, then the mount
/// list and the process when present.
#[verifier::opaque]
pub open spec fn json_spec(s: SpecV, d: int) -> Seq<char> {
    "{\n"@ + indent(d + 1) + "\"ociVersion\": "@ + json_string(s.oci_version) + (match s.mounts {
        Some(ms) => ",\n"@ + indent(d + 1) + "\"mounts\": "@ + json_mounts(ms, d + 1),
        None => Seq::empty(),
    }) + (match s.process {
        Some(p) => ",\n"@ + indent(d + 1) + "\"process\": "@ + json_process(p, d + 1),
        None => Seq::empty(),
    }) + "\n"@ + indent(d) + "}"@
}

/// A pretty-printed custom object; an empty layer list renders as an
/// empty object.
#[verifier::opaque]
pub open spec fn json_custom(c: CustomV, d: int) -> Seq<char> {
    if c.layers.len() == 0 {
        "{}"@
    } else {
        "{\n"@ + indent(d + 1) + "\"layers\": "@ + json_str_array(c.layers, d + 1) + "\n"@
            + indent(d) + "}"@
    }
}

/// A pretty-printed container policy: its allow-spec and, when present,
/// its custom metadata.
#[verifier::opaque]
pub open spec fn json_container_policy(p: ContainerPolicyV, d: int) -> Seq<char> {
    "{\n"@ + indent(d + 1) + "\"oci_spec\": "@ + json_spec(p.oci_spec, d + 1) + (match p.custom {
        Some(c) => ",\n"@ + indent(d + 1) + "\"custom\": "@ + json_custom(c, d + 1),
        None => Seq::empty(),
    }) + "\n"@ + indent(d) + "}"@
}

/// The entries of the container mapping from position `i` on, each keyed
/// by its container name.
#[verifier::opaque]
pub open spec fn json_container_items(cs: Seq<NamedPolicyV>, i: int, d: int) -> Seq<char>
    decreases cs.len() - i,
{
    if i < 0 || i >= cs.len() {
        Seq::empty()
    } else {
        (if i == 0 {
            "\n"@
        } else {
            ",\n"@
        }) + indent(d + 1) + json_string(cs[i].name) + ": "@ + json_container_policy(
            cs[i].policy,
            d + 1,
        ) + json_container_items(cs, i + 1, d)
    }
}

/// A pretty-printed mapping from container name to policy.
#[verifier::opaque]
pub open spec fn json_containers(cs: Seq<NamedPolicyV>, d: int) -> Seq<char> {
    if cs.len() == 0 {
        "{}"@
    } else {
        "{"@ + json_container_items(cs, 0, d) + "\n"@ + indent(d) + "}"@
    }
}

/// The whole policy document's pretty-printed textual form.
#[verifier::opaque]
pub open spec fn json_doc(doc: CcPolicyV) -> Seq<char> {
    "{\n  \"version\": "@ + json_string(doc.version) + ",\n  \"containers\": "@ + json_containers(
        doc.containers,
        1,
    ) + "\n}"@
}

// ---------------------------------------------------------------------------
// The executable serializer
// ---------------------------------------------------------------------------
/// A decimal digit as a one-character string.
fn digit_str(n: u8) -> (r: &'static str)
    requires
        n < 10,
    ensures
        r@ =~= seq![dec_digit(n as int)],
{
    let r: &'static str = match n {
        0 => "0",
        1 => "1",
        2 => "2",
        3 => "3",
        4 => "4",
        5 => "5",
        6 => "6",
        7 => "7",
        8 => "8",
        _ => "9",
    };
    proof {
        reveal_strlit("0");
        reveal_strlit("1");
        reveal_strlit("2");
        reveal_strlit("3");
        reveal_strlit("4");
        reveal_strlit("5");
        reveal_strlit("6");
        reveal_strlit("7");
        reveal_strlit("8");
        reveal_strlit("9");
    }
    r
}

/// A hexadecimal digit as a one-character string.
fn hex_str(n: u32) -> (r: &'static str)
    requires
        n < 16,
    ensures
        r@ =~= seq![hex_digit(n as int)],
{
    let r: &'static str = match n {
        0 => "0",
        1 => "1",
        2 => "2",
        3 => "3",
        4 => "4",
        5 => "5",
        6 => "6",
        7 => "7",
        8 => "8",
        9 => "9",
        10 => "a",
        11 => "b",
        12 => "c",
        13 => "d",
        14 => "e",
        _ => "f",
    };
    proof {
        reveal_strlit("0");
        reveal_strlit("1");
        reveal_strlit("2");
        reveal_strlit("3");
        reveal_strlit("4");
        reveal_strlit("5");
        reveal_strlit("6");
        reveal_strlit("7");
        reveal_strlit("8");
        reveal_strlit("9");
        reveal_strlit("a");
        reveal_strlit("b");
        reveal_strlit("c");
        reveal_strlit("d");
        reveal_strlit("e");
        reveal_strlit("f");
    }
    r
}

/// Appends the indentation for a nesting depth.
fn push_indent(out: &mut String, d: usize)
    ensures
        final(out)@ == old(out)@ + indent(d as int),
{
    let mut i: usize = 0;
    proof {
        assert(out@ + indent(0) =~= out@);
    }
    while i < d
        invariant
            i <= d,
            out@ == old(out)@ + indent(i as int),
        decreases d - i,
    {
        out.append("  ");
        proof {
            assert(out@ =~= old(out)@ + indent(i + 1 as int));
        }
        i = i + 1;
    }
}

/// Appends a non-negative number in decimal.
fn push_dec(out: &mut String, n: u32)
    ensures
        final(out)@ == old(out)@ + dec_number(n as int),
    decreases n,
{
    if n < 10 {
        out.append(digit_str(n as u8));
        proof {
            assert(out@ =~= old(out)@ + dec_number(n as int));
        }
    } else {
        push_dec(out, n / 10);
        out.append(digit_str((n % 10) as u8));
        proof {
            assert(out@ =~= old(out)@ + dec_number(n as int));
        }
    }
}

/// Appends four hexadecimal digits.
fn push_hex4(out: &mut String, v: u32)
    requires
        v < 65536,
    ensures
        final(out)@ == old(out)@ + hex4(v as int),
{
    out.append(hex_str((v / 4096) % 16));
    out.append(hex_str((v / 256) % 16));
    out.append(hex_str((v / 16) % 16));
    out.append(hex_str(v % 16));
    proof {
        assert(out@ =~= old(out)@ + hex4(v as int));
    }
}

/// Escaping a prefix one character longer appends that character's
/// escape.
proof fn lemma_esc_str_snoc(s: Seq<char>, k: int)
    requires
        0 <= k < s.len(),
    ensures
        esc_str(s.subrange(0, k + 1)) == esc_str(s.subrange(0, k)) + esc_char(s[k]),
    decreases k,
{
    if k == 0 {
        let sub = s.subrange(0, 1);
        assert(sub.len() == 1);
        assert(sub[0] == s[0]);
        assert(esc_str(sub) == esc_char(s[0]) + esc_str(sub.subrange(1, 1)));
        assert(sub.subrange(1, 1) =~= Seq::<char>::empty());
        assert(esc_str(Seq::<char>::empty()) == Seq::<char>::empty());
        assert(esc_char(s[0]) + Seq::<char>::empty() =~= esc_char(s[0]));
        assert(s.subrange(0, 0) =~= Seq::<char>::empty());
        assert(esc_str(s.subrange(0, 0)) + esc_char(s[0]) =~= esc_char(s[0]));
    } else {
        let t = s.subrange(1, s.len() as int);
        lemma_esc_str_snoc(t, k - 1);
        assert(s.subrange(0, k + 1).subrange(1, k + 1) =~= t.subrange(0, k));
        assert(s.subrange(0, k).subrange(1, k) =~= t.subrange(0, k - 1));
        assert(s.subrange(0, k + 1)[0] == s[0]);
        assert(s.subrange(0, k)[0] == s[0]);
        assert(esc_str(s.subrange(0, k + 1)) == esc_char(s[0]) + esc_str(t.subrange(0, k)));
        assert(esc_str(s.subrange(0, k)) == esc_char(s[0]) + esc_str(t.subrange(0, k - 1)));
        assert(t[k - 1] == s[k]);
        assert(esc_char(s[0]) + (esc_str(t.subrange(0, k - 1)) + esc_char(s[k])) =~= (esc_char(
            s[0],
        ) + esc_str(t.subrange(0, k - 1))) + esc_char(s[k]));
    }
}

/// Appends a quoted, escaped string.
fn push_json_string(out: &mut String, s: &str)
    ensures
        final(out)@ == old(out)@ + json_string(s@),
{
    let len = s.unicode_len();
    out.append("\"");
    let ghost base = out@;
    proof {
        reveal(json_string);
        reveal_strlit("\"");
        assert(s@.subrange(0, 0) =~= Seq::<char>::empty());
        assert(base + esc_str(s@.subrange(0, 0)) =~= base);
        assert(base =~= old(out)@ + seq!['"']);
    }
    let mut k: usize = 0;
    while k < len
        invariant
            k <= len,
            len == s@.len(),
            base == old(out)@ + seq!['"'],
            out@ == base + esc_str(s@.subrange(0, k as int)),
        decreases len - k,
    {
        let ghost pre = out@;
        let c = s.get_char(k);
        let u = c as u32;
        if c == '"' {
            out.append("\\\"");
            proof {
                reveal(json_string);
                reveal_strlit("\\\"");
                assert(out@ =~= pre + esc_char(c));
            }
        } else if c == '\\' {
            out.append("\\\\");
            proof {
                reveal(json_string);
                reveal_strlit("\\\\");
                assert(out@ =~= pre + esc_char(c));
            }
        } else if u >= 0x20 && u <= 0x7E {
            out.append(s.substring_char(k, k + 1));
            proof {
                reveal(json_string);
                assert(s@.subrange(k as int, k + 1 as int) =~= seq![c]);
                assert(out@ =~= pre + esc_char(c));
            }
        } else if u <= 0xFFFF {
            out.append("\\u");
            push_hex4(out, u);
            proof {
                reveal(json_string);
                reveal_strlit("\\u");
                assert(out@ =~= pre + esc_char(c));
            }
        } else {
            out.append("\\u");
            push_hex4(out, 0xD800 + (u - 0x10000) / 1024);
            out.append("\\u");
            push_hex4(out, 0xDC00 + (u - 0x10000) % 1024);
            proof {
                reveal(json_string);
                reveal_strlit("\\u");
                assert(out@ =~= pre + esc_char(c));
            }
        }
        proof {
            reveal(json_string);
            lemma_esc_str_snoc(s@, k as int);
            assert(out@ =~= base + esc_str(s@.subrange(0, k + 1 as int)));
        }
        k = k + 1;
    }
    out.append("\"");
    proof {
        reveal(json_string);
        reveal_strlit("\"");
        assert(s@.subrange(0, len as int) =~= s@);
        assert(out@ =~= old(out)@ + json_string(s@));
    }
}

/// Appends a pretty-printed array of strings.
#[verifier::rlimit(60)]
fn push_str_array(out: &mut String, items: &Vec<String>, d: usize)
    requires
        d <= 31,
    ensures
        final(out)@ == old(out)@ + json_str_array(items.deep_view(), d as int),
{
    let ghost iv = items.deep_view();
    let n = items.len();
    if n == 0 {
        out.append("[]");
        proof {
            reveal(json_str_array);
            reveal(json_str_items);
            assert(out@ =~= old(out)@ + json_str_array(iv, d as int));
        }
        return ;
    }
    out.append("[");
    let ghost base = out@;
    proof {
        reveal(json_str_array);
        reveal(json_str_items);
        assert(base =~= old(out)@ + "["@);
    }
    let mut k: usize = 0;
    let ghost mut emitted: Seq<char> = Seq::empty();
    proof {
        reveal(json_str_array);
        reveal(json_str_items);
        assert(json_str_items(iv, 0, d as int) =~= emitted + json_str_items(iv, 0, d as int));
        assert(out@ =~= base + emitted);
    }
    while k < n
        invariant
            d <= 31,
            k <= n,
            n == items.len(),
            iv == items.deep_view(),
            base == old(out)@ + "["@,
            out@ == base + emitted,
            json_str_items(iv, 0, d as int) == emitted + json_str_items(iv, k as int, d as int),
        decreases n - k,
    {
        let ghost pre = out@;
        let ghost sep: Seq<char> = if k == 0 {
            "\n"@
        } else {
            ",\n"@
        };
        if k == 0 {
            out.append("\n");
        } else {
            out.append(",\n");
        }
        push_indent(out, d + 1);
        proof {
            reveal(json_str_array);
            reveal(json_str_items);
            assert(items.deep_view()[k as int] == items@[k as int]@);
        }
        push_json_string(out, items[k].as_str());
        proof {
            reveal(json_str_array);
            reveal(json_str_items);
            emitted = emitted + sep + indent(d + 1 as int) + json_string(iv[k as int]);
            assert(out@ =~= base + emitted);
            assert(json_str_items(iv, k as int, d as int) == sep + indent(d + 1 as int)
                + json_string(iv[k as int]) + json_str_items(iv, k + 1 as int, d as int));
            assert(json_str_items(iv, 0, d as int) =~= emitted + json_str_items(
                iv,
                k + 1 as int,
                d as int,
            ));
        }
        k = k + 1;
    }
    out.append("\n");
    push_indent(out, d);
    out.append("]");
    proof {
        reveal(json_str_array);
        reveal(json_str_items);
        assert(json_str_items(iv, n as int, d as int) =~= Seq::<char>::empty());
        assert(emitted =~= json_str_items(iv, 0, d as int));
        assert(out@ =~= old(out)@ + json_str_array(iv, d as int));
    }
}

/// Appends a pretty-printed user object.
#[verifier::rlimit(60)]
fn push_user(out: &mut String, u: &User, d: usize)
    requires
        d <= 31,
    ensures
        final(out)@ == old(out)@ + json_user(*u, d as int),
{
    out.append("{\n");
    push_indent(out, d + 1);
    out.append("\"uid\": ");
    push_dec(out, u.uid);
    out.append(",\n");
    push_indent(out, d + 1);
    out.append("\"gid\": ");
    push_dec(out, u.gid);
    out.append("\n");
    push_indent(out, d);
    out.append("}");
    proof {
        reveal(json_user);
        assert(out@ =~= old(out)@ + json_user(*u, d as int));
    }
}

/// Appends a pretty-printed process object.
#[verifier::rlimit(100)]
fn push_process(out: &mut String, p: &Process, d: usize)
    requires
        d <= 29,
    ensures
        final(out)@ == old(out)@ + json_process(p.deep_view(), d as int),
{
    let ghost pv = p.deep_view();
    out.append("{\n");
    push_indent(out, d + 1);
    out.append("\"user\": ");
    push_user(out, &p.user, d + 1);
    let ghost snap1 = out@;
    proof {
        reveal(json_process_head);
        assert(snap1 =~= old(out)@ + json_process_head(pv, d as int));
    }
    match &p.args {
        Some(args) => {
            out.append(",\n");
            push_indent(out, d + 1);
            out.append("\"args\": ");
            push_str_array(out, args, d + 1);
            proof {
                reveal(json_process_args);
                assert(out@ =~= snap1 + json_process_args(pv, d as int));
            }
        },
        None => {
            proof {
                reveal(json_process_args);
                assert(out@ =~= snap1 + json_process_args(pv, d as int));
            }
        },
    }
    let ghost snap2 = out@;
    match &p.env {
        Some(env) => {
            out.append(",\n");
            push_indent(out, d + 1);
            out.append("\"env\": ");
            push_str_array(out, env, d + 1);
            proof {
                reveal(json_process_env);
                assert(out@ =~= snap2 + json_process_env(pv, d as int));
            }
        },
        None => {
            proof {
                reveal(json_process_env);
                assert(out@ =~= snap2 + json_process_env(pv, d as int));
            }
        },
    }
    let ghost snap3 = out@;
    out.append(",\n");
    push_indent(out, d + 1);
    out.append("\"cwd\": ");
    push_json_string(out, p.cwd.as_str());
    out.append("\n");
    push_indent(out, d);
    out.append("}");
    proof {
        reveal(json_process_tail);
        assert(out@ =~= snap3 + json_process_tail(pv, d as int));
        reveal(json_process);
        assert(out@ =~= old(out)@ + json_process(pv, d as int));
    }
}

/// Appends a pretty-printed mount object.
#[verifier::rlimit(60)]
fn push_mount(out: &mut String, m: &Mount, d: usize)
    requires
        d <= 30,
    ensures
        final(out)@ == old(out)@ + json_mount(m.deep_view(), d as int),
{
    let ghost mv = m.deep_view();
    let ghost seg1 = "{\n"@ + indent(d + 1 as int) + "\"destination\": "@ + json_string(
        mv.destination,
    );
    let ghost seg2 = ",\n"@ + indent(d + 1 as int) + "\"type\": "@ + json_string(mv.typ);
    let ghost seg3 = ",\n"@ + indent(d + 1 as int) + "\"source\": "@ + json_string(mv.source);
    let ghost seg4 = ",\n"@ + indent(d + 1 as int) + "\"options\": "@ + json_str_array(
        mv.options,
        d + 1 as int,
    );
    let ghost seg5 = "\n"@ + indent(d as int) + "}"@;
    out.append("{\n");
    push_indent(out, d + 1);
    out.append("\"destination\": ");
    push_json_string(out, m.destination.as_str());
    let ghost snap1 = out@;
    proof {
        assert(snap1 =~= old(out)@ + seg1);
    }
    out.append(",\n");
    push_indent(out, d + 1);
    out.append("\"type\": ");
    push_json_string(out, m.typ.as_str());
    let ghost snap2 = out@;
    proof {
        assert(snap2 =~= snap1 + seg2);
    }
    out.append(",\n");
    push_indent(out, d + 1);
    out.append("\"source\": ");
    push_json_string(out, m.source.as_str());
    let ghost snap3 = out@;
    proof {
        assert(snap3 =~= snap2 + seg3);
    }
    out.append(",\n");
    push_indent(out, d + 1);
    out.append("\"options\": ");
    push_str_array(out, &m.options, d + 1);
    let ghost snap4 = out@;
    proof {
        assert(snap4 =~= snap3 + seg4);
    }
    out.append("\n");
    push_indent(out, d);
    out.append("}");
    proof {
        assert(out@ =~= snap4 + seg5);
        assert(out@ =~= old(out)@ + (seg1 + seg2 + seg3 + seg4 + seg5));
        reveal(json_mount);
        assert(out@ =~= old(out)@ + json_mount(mv, d as int));
    }
}

/// Appends a pretty-printed array of mounts.
#[verifier::rlimit(60)]
fn push_mounts(out: &mut String, ms: &Vec<Mount>, d: usize)
    requires
        d <= 29,
    ensures
        final(out)@ == old(out)@ + json_mounts(ms.deep_view(), d as int),
{
    let ghost mv = ms.deep_view();
    let n = ms.len();
    if n == 0 {
        out.append("[]");
        proof {
            reveal(json_mounts);
            reveal(json_mount_items);
            assert(out@ =~= old(out)@ + json_mounts(mv, d as int));
        }
        return ;
    }
    out.append("[");
    let ghost base = out@;
    proof {
        reveal(json_mounts);
        reveal(json_mount_items);
        assert(base =~= old(out)@ + "["@);
    }
    let mut k: usize = 0;
    let ghost mut emitted: Seq<char> = Seq::empty();
    proof {
        reveal(json_mounts);
        reveal(json_mount_items);
        assert(json_mount_items(mv, 0, d as int) =~= emitted + json_mount_items(mv, 0, d as int));
        assert(out@ =~= base + emitted);
    }
    while k < n
        invariant
            d <= 29,
            k <= n,
            n == ms.len(),
            mv == ms.deep_view(),
            base == old(out)@ + "["@,
            out@ == base + emitted,
            json_mount_items(mv, 0, d as int) == emitted + json_mount_items(mv, k as int, d as int),
        decreases n - k,
    {
        let ghost sep: Seq<char> = if k == 0 {
            "\n"@
        } else {
            ",\n"@
        };
        if k == 0 {
            out.append("\n");
        } else {
            out.append(",\n");
        }
        push_indent(out, d + 1);
        proof {
            reveal(json_mounts);
            reveal(json_mount_items);
            assert(ms.deep_view()[k as int] == ms@[k as int].deep_view());
        }
        push_mount(out, &ms[k], d + 1);
        proof {
            reveal(json_mounts);
            reveal(json_mount_items);
            emitted = emitted + sep + indent(d + 1 as int) + json_mount(mv[k as int], d + 1 as int);
            assert(out@ =~= base + emitted);
            assert(json_mount_items(mv, k as int, d as int) == sep + indent(d + 1 as int)
                + json_mount(mv[k as int], d + 1 as int) + json_mount_items(
                mv,
                k + 1 as int,
                d as int,
            ));
            assert(json_mount_items(mv, 0, d as int) =~= emitted + json_mount_items(
                mv,
                k + 1 as int,
                d as int,
            ));
        }
        k = k + 1;
    }
    out.append("\n");
    push_indent(out, d);
    out.append("]");
    proof {
        reveal(json_mounts);
        reveal(json_mount_items);
        assert(json_mount_items(mv, n as int, d as int) =~= Seq::<char>::empty());
        assert(emitted =~= json_mount_items(mv, 0, d as int));
        assert(out@ =~= old(out)@ + json_mounts(mv, d as int));
    }
}

/// Appends a pretty-printed allow-spec object.
#[verifier::rlimit(100)]
fn push_spec(out: &mut String, s: &Spec, d: usize)
    requires
        d <= 28,
    ensures
        final(out)@ == old(out)@ + json_spec(s.deep_view(), d as int),
{
    let ghost sv = s.deep_view();
    let ghost seg_head = "{\n"@ + indent(d + 1 as int) + "\"ociVersion\": "@ + json_string(
        sv.oci_version,
    );
    let ghost seg_mounts = (match sv.mounts {
        Some(ms) => ",\n"@ + indent(d + 1 as int) + "\"mounts\": "@ + json_mounts(
            ms,
            d + 1 as int,
        ),
        None => Seq::<char>::empty(),
    });
    let ghost seg_process = (match sv.process {
        Some(p) => ",\n"@ + indent(d + 1 as int) + "\"process\": "@ + json_process(
            p,
            d + 1 as int,
        ),
        None => Seq::<char>::empty(),
    });
    let ghost seg_tail = "\n"@ + indent(d as int) + "}"@;
    proof {
        reveal(json_spec);
        assert(json_spec(sv, d as int) =~= seg_head + seg_mounts + seg_process + seg_tail);
    }
    out.append("{\n");
    push_indent(out, d + 1);
    out.append("\"ociVersion\": ");
    push_json_string(out, s.oci_version.as_str());
    let ghost snap1 = out@;
    proof {
        reveal(json_spec);
        assert(snap1 =~= old(out)@ + seg_head);
    }
    match &s.mounts {
        Some(ms) => {
            out.append(",\n");
            push_indent(out, d + 1);
            out.append("\"mounts\": ");
            push_mounts(out, ms, d + 1);
            proof {
                reveal(json_spec);
                assert(out@ =~= snap1 + seg_mounts);
            }
        },
        None => {
            proof {
                reveal(json_spec);
                assert(out@ =~= snap1 + seg_mounts);
            }
        },
    }
    let ghost snap2 = out@;
    match &s.process {
        Some(p) => {
            out.append(",\n");
            push_indent(out, d + 1);
            out.append("\"process\": ");
            push_process(out, p, d + 1);
            proof {
                reveal(json_spec);
                assert(out@ =~= snap2 + seg_process);
            }
        },
        None => {
            proof {
                reveal(json_spec);
                assert(out@ =~= snap2 + seg_process);
            }
        },
    }
    let ghost snap3 = out@;
    out.append("\n");
    push_indent(out, d);
    out.append("}");
    proof {
        reveal(json_spec);
        assert(out@ =~= snap3 + seg_tail);
        assert(out@ =~= old(out)@ + (seg_head + seg_mounts + seg_process + seg_tail));
        assert(out@ =~= old(out)@ + json_spec(sv, d as int));
    }
}

/// Appends a pretty-printed custom object.
#[verifier::rlimit(60)]
fn push_custom(out: &mut String, c: &Custom, d: usize)
    requires
        d <= 29,
    ensures
        final(out)@ == old(out)@ + json_custom(c.deep_view(), d as int),
{
    if c.layers.is_empty() {
        out.append("{}");
        proof {
            reveal(json_custom);
            assert(out@ =~= old(out)@ + json_custom(c.deep_view(), d as int));
        }
    } else {
        out.append("{\n");
        push_indent(out, d + 1);
        out.append("\"layers\": ");
        push_str_array(out, &c.layers, d + 1);
        out.append("\n");
        push_indent(out, d);
        out.append("}");
        proof {
            reveal(json_custom);
            assert(out@ =~= old(out)@ + json_custom(c.deep_view(), d as int));
        }
    }
}

/// Appends a pretty-printed container policy.
#[verifier::rlimit(100)]
fn push_container_policy(out: &mut String, p: &ContainerPolicy, d: usize)
    requires
        d <= 27,
    ensures
        final(out)@ == old(out)@ + json_container_policy(p.deep_view(), d as int),
{
    let ghost pv = p.deep_view();
    let ghost seg_head = "{\n"@ + indent(d + 1 as int) + "\"oci_spec\": "@ + json_spec(
        pv.oci_spec,
        d + 1 as int,
    );
    let ghost seg_custom = (match pv.custom {
        Some(c) => ",\n"@ + indent(d + 1 as int) + "\"custom\": "@ + json_custom(
            c,
            d + 1 as int,
        ),
        None => Seq::<char>::empty(),
    });
    let ghost seg_tail = "\n"@ + indent(d as int) + "}"@;
    proof {
        reveal(json_container_policy);
        assert(json_container_policy(pv, d as int) =~= seg_head + seg_custom + seg_tail);
    }
    out.append("{\n");
    push_indent(out, d + 1);
    out.append("\"oci_spec\": ");
    push_spec(out, &p.oci_spec, d + 1);
    let ghost snap1 = out@;
    proof {
        reveal(json_container_policy);
        assert(snap1 =~= old(out)@ + seg_head);
    }
    match &p.custom {
        Some(c) => {
            out.append(",\n");
            push_indent(out, d + 1);
            out.append("\"custom\": ");
            push_custom(out, c, d + 1);
            proof {
                reveal(json_container_policy);
                assert(out@ =~= snap1 + seg_custom);
            }
        },
        None => {
            proof {
                reveal(json_container_policy);
                assert(out@ =~= snap1 + seg_custom);
            }
        },
    }
    let ghost snap2 = out@;
    out.append("\n");
    push_indent(out, d);
    out.append("}");
    proof {
        reveal(json_container_policy);
        assert(out@ =~= snap2 + seg_tail);
        assert(out@ =~= old(out)@ + (seg_head + seg_custom + seg_tail));
        assert(out@ =~= old(out)@ + json_container_policy(pv, d as int));
    }
}

/// Appends the pretty-printed container mapping.
#[verifier::rlimit(60)]
fn push_containers(out: &mut String, cs: &Vec<NamedPolicy>, d: usize)
    requires
        d <= 26,
    ensures
        final(out)@ == old(out)@ + json_containers(cs.deep_view(), d as int),
{
    let ghost cv = cs.deep_view();
    let n = cs.len();
    if n == 0 {
        out.append("{}");
        proof {
            reveal(json_containers);
            reveal(json_container_items);
            assert(out@ =~= old(out)@ + json_containers(cv, d as int));
        }
        return ;
    }
    out.append("{");
    let ghost base = out@;
    proof {
        reveal(json_containers);
        reveal(json_container_items);
        assert(base =~= old(out)@ + "{"@);
    }
    let mut k: usize = 0;
    let ghost mut emitted: Seq<char> = Seq::empty();
    proof {
        reveal(json_containers);
        reveal(json_container_items);
        assert(json_container_items(cv, 0, d as int) =~= emitted + json_container_items(
            cv,
            0,
            d as int,
        ));
        assert(out@ =~= base + emitted);
    }
    while k < n
        invariant
            d <= 26,
            k <= n,
            n == cs.len(),
            cv == cs.deep_view(),
            base == old(out)@ + "{"@,
            out@ == base + emitted,
            json_container_items(cv, 0, d as int) == emitted + json_container_items(
                cv,
                k as int,
                d as int,
            ),
        decreases n - k,
    {
        let ghost sep: Seq<char> = if k == 0 {
            "\n"@
        } else {
            ",\n"@
        };
        if k == 0 {
            out.append("\n");
        } else {
            out.append(",\n");
        }
        push_indent(out, d + 1);
        proof {
            reveal(json_containers);
            reveal(json_container_items);
            assert(cs.deep_view()[k as int] == cs@[k as int].deep_view());
        }
        push_json_string(out, cs[k].name.as_str());
        out.append(": ");
        push_container_policy(out, &cs[k].policy, d + 1);
        proof {
            reveal(json_containers);
            reveal(json_container_items);
            emitted = emitted + sep + indent(d + 1 as int) + json_string(cv[k as int].name) + ": "@
                + json_container_policy(cv[k as int].policy, d + 1 as int);
            assert(out@ =~= base + emitted);
            assert(json_container_items(cv, k as int, d as int) == sep + indent(d + 1 as int)
                + json_string(cv[k as int].name) + ": "@ + json_container_policy(
                cv[k as int].policy,
                d + 1 as int,
            ) + json_container_items(cv, k + 1 as int, d as int));
            assert(json_container_items(cv, 0, d as int) =~= emitted + json_container_items(
                cv,
                k + 1 as int,
                d as int,
            ));
        }
        k = k + 1;
    }
    out.append("\n");
    push_indent(out, d);
    out.append("}");
    proof {
        reveal(json_containers);
        reveal(json_container_items);
        assert(json_container_items(cv, n as int, d as int) =~= Seq::<char>::empty());
        assert(emitted =~= json_container_items(cv, 0, d as int));
        assert(out@ =~= old(out)@ + json_containers(cv, d as int));
    }
}

impl CcPolicy {
    /// The document's pretty-printed structured-text form, per
    /// [`json_doc`].
    pub fn to_json(&self) -> (r: String)
        ensures
            r@ == json_doc(self.deep_view()),
    {
        let mut out = String::new();
        out.append("{\n  \"version\": ");
        push_json_string(&mut out, self.version.as_str());
        out.append(",\n  \"containers\": ");
        push_containers(&mut out, &self.containers, 1);
        out.append("\n}");
        proof {
            reveal(json_doc);
            assert(out@ =~= json_doc(self.deep_view()));
        }
        out
    }
}


/// The transport form of a document: the textual form's bytes under the
/// 64-character encoding.
pub open spec fn doc_base64(doc: CcPolicyV) -> Seq<char> {
    crate::encoding::b64_encode(vstd::utf8::encode_utf8(json_doc(doc)))
}

impl CcPolicy {
    /// The document's base64-encoded transport form, per [`doc_base64`].
    pub fn to_base64(&self) -> (r: String)
        ensures
            r@ == doc_base64(self.deep_view()),
    {
        let json = self.to_json();
        let bytes = json.as_str().as_bytes_vec();
        crate::encoding::encode_base64(&bytes)
    }
}

/// The transport encoding of a policy document is lossless: decoding the
/// base64 form gives back exactly the bytes of the document's textual
/// form, for every document.  (What those bytes spell is pinned by
/// [`json_doc`]; the re-parse of the text itself is not modelled here.)
pub proof fn lemma_policy_encoding_lossless(doc: CcPolicyV)
    ensures
        crate::encoding::b64_decode(doc_base64(doc)) == Some(
            vstd::utf8::encode_utf8(json_doc(doc)),
        ),
{
    crate::encoding::lemma_b64_round_trip(vstd::utf8::encode_utf8(json_doc(doc)));
}

/// Compilation is idempotent: two runs over the same manifest view and the
/// same collaborator snapshots produce documents with identical textual
/// and transport forms.  Each run's document equals the one specification
/// value, so the serialized results are byte-identical.
pub proof fn lemma_compilation_idempotent(
    pod: crate::pod_yaml::PodYamlV,
    with_default_rules: bool,
    images: Seq<crate::image::ImageEntryV>,
    maps: Seq<crate::pod_yaml::ConfigMapEntryV>,
    doc1: CcPolicyV,
    doc2: CcPolicyV,
)
    requires
        crate::policy::spec_from_pod_yaml(pod, with_default_rules, images, maps) == Ok::<
            _,
            crate::errors::PolicyErrV,
        >(doc1),
        crate::policy::spec_from_pod_yaml(pod, with_default_rules, images, maps) == Ok::<
            _,
            crate::errors::PolicyErrV,
        >(doc2),
    ensures
        json_doc(doc1) == json_doc(doc2),
        doc_base64(doc1) == doc_base64(doc2),
{
}


// ---------------------------------------------------------------------------
// Losslessness of the string escaping
// ---------------------------------------------------------------------------
/// Distinct digit values render as distinct digits.
proof fn lemma_hex_digit_inj(n: int, m: int)
    requires
        0 <= n < 16,
        0 <= m < 16,
        hex_digit(n) == hex_digit(m),
    ensures
        n == m,
{
}

/// Four hexadecimal digits pin the sixteen-bit value.
proof fn lemma_hex4_inj(v: int, w: int)
    requires
        0 <= v < 0x10000,
        0 <= w < 0x10000,
        hex4(v) == hex4(w),
    ensures
        v == w,
{
    assert(hex4(v)[0] == hex4(w)[0]);
    assert(hex4(v)[1] == hex4(w)[1]);
    assert(hex4(v)[2] == hex4(w)[2]);
    assert(hex4(v)[3] == hex4(w)[3]);
    lemma_hex_digit_inj((v / 4096) % 16, (w / 4096) % 16);
    lemma_hex_digit_inj((v / 256) % 16, (w / 256) % 16);
    lemma_hex_digit_inj((v / 16) % 16, (w / 16) % 16);
    lemma_hex_digit_inj(v % 16, w % 16);
    assert((v / 4096) % 16 == v / 4096);
    assert((w / 4096) % 16 == w / 4096);
    assert(v / 256 == (v / 256 / 16) * 16 + (v / 256) % 16);
    assert(v / 256 / 16 == v / 4096);
    assert(w / 256 == (w / 256 / 16) * 16 + (w / 256) % 16);
    assert(w / 256 / 16 == w / 4096);
    assert(v / 256 == w / 256);
    assert(v / 16 == (v / 16 / 16) * 16 + (v / 16) % 16);
    assert(v / 16 / 16 == v / 256);
    assert(w / 16 == (w / 16 / 16) * 16 + (w / 16) % 16);
    assert(w / 16 / 16 == w / 256);
    assert(v / 16 == w / 16);
    assert(v == (v / 16) * 16 + v % 16);
    assert(w == (w / 16) * 16 + w % 16);
}

/// The shape class of a character's escape: kept, two-character escape,
/// one `\u` unit, or a surrogate pair of two units.
spec fn esc_kind(c: char) -> int {
    let v = c as u32;
    if c == '"' || c == '\\' {
        1
    } else if v >= 0x20 && v <= 0x7E {
        0
    } else if v <= 0xFFFF {
        2
    } else {
        3
    }
}

/// The first escape of a rendered tail determines its character: the
/// escape forms are a prefix code.
proof fn lemma_esc_char_head(a: char, b: char, x: Seq<char>, y: Seq<char>)
    requires
        esc_char(a) + x == esc_char(b) + y,
    ensures
        a == b,
        x == y,
{
    vstd::utf8::char_is_scalar(a);
    vstd::utf8::char_is_scalar(b);
    let ua = a as u32;
    let ub = b as u32;
    let e = esc_char(a) + x;
    assert(forall|i: int| 0 <= i < esc_char(a).len() ==> e[i] == esc_char(a)[i]);
    assert(forall|i: int| 0 <= i < esc_char(b).len() ==> e[i] == esc_char(b)[i]);
    assert(!(0xD800 <= ua && ua <= 0xDFFF));
    assert(!(0xD800 <= ub && ub <= 0xDFFF));
    assert(ua <= 0x10FFFF);
    assert(ub <= 0x10FFFF);
    if esc_kind(a) == 0 {
        assert(e[0] == a);
        if esc_kind(b) != 0 {
            assert(e[0] == '\\');
            assert(false);
        }
        assert(a == b);
    } else if esc_kind(b) == 0 {
        assert(e[0] == b);
        assert(e[0] == '\\');
        assert(false);
    } else if esc_kind(a) == 1 {
        assert(e[1] == a);
        if esc_kind(b) == 1 {
            assert(e[1] == b);
        } else {
            assert(e[1] == 'u');
            assert(false);
        }
    } else if esc_kind(b) == 1 {
        assert(e[1] == b);
        assert(e[1] == 'u');
        assert(false);
    } else {
        // both sides are \u forms; the first four digits decide
        let va = if esc_kind(a) == 2 {
            ua as int
        } else {
            0xD800 + (ua as int - 0x10000) / 1024
        };
        let vb = if esc_kind(b) == 2 {
            ub as int
        } else {
            0xD800 + (ub as int - 0x10000) / 1024
        };
        assert(0 <= va < 0x10000);
        assert(0 <= vb < 0x10000);
        assert(e[2] == hex4(va)[0] && e[3] == hex4(va)[1] && e[4] == hex4(va)[2] && e[5] == hex4(
            va,
        )[3]);
        assert(e[2] == hex4(vb)[0] && e[3] == hex4(vb)[1] && e[4] == hex4(vb)[2] && e[5] == hex4(
            vb,
        )[3]);
        assert(hex4(va) =~= hex4(vb));
        lemma_hex4_inj(va, vb);
        if esc_kind(a) == 2 && esc_kind(b) == 2 {
            assert(ua == ub);
        } else if esc_kind(a) == 2 && esc_kind(b) == 3 {
            assert(0xD800 <= vb < 0xDC00);
            assert(false);
        } else if esc_kind(a) == 3 && esc_kind(b) == 2 {
            assert(0xD800 <= va < 0xDC00);
            assert(false);
        } else {
            let la = 0xDC00 + (ua as int - 0x10000) % 1024;
            let lb = 0xDC00 + (ub as int - 0x10000) % 1024;
            assert(0 <= la < 0x10000);
            assert(0 <= lb < 0x10000);
            assert(e[8] == hex4(la)[0] && e[9] == hex4(la)[1] && e[10] == hex4(la)[2] && e[11]
                == hex4(la)[3]);
            assert(e[8] == hex4(lb)[0] && e[9] == hex4(lb)[1] && e[10] == hex4(lb)[2] && e[11]
                == hex4(lb)[3]);
            assert(hex4(la) =~= hex4(lb));
            lemma_hex4_inj(la, lb);
            assert((ua as int - 0x10000) / 1024 == (ub as int - 0x10000) / 1024);
            assert((ua as int - 0x10000) % 1024 == (ub as int - 0x10000) % 1024);
            assert(ua as int - 0x10000 == ((ua as int - 0x10000) / 1024) * 1024 + (ua as int
                - 0x10000) % 1024);
            assert(ub as int - 0x10000 == ((ub as int - 0x10000) / 1024) * 1024 + (ub as int
                - 0x10000) % 1024);
            assert(ua == ub);
        }
        assert(a == b);
    }
    assert(a == b);
    assert(esc_char(a).len() == esc_char(b).len());
    assert((esc_char(a) + x).len() == esc_char(a).len() + x.len());
    assert((esc_char(b) + y).len() == esc_char(b).len() + y.len());
    assert(x.len() == y.len());
    assert forall|i: int| 0 <= i < x.len() implies x[i] == y[i] by {
        assert(e[esc_char(a).len() + i] == x[i]);
        assert(e[esc_char(b).len() + i] == y[i]);
    }
    assert(x =~= y);
}

/// Rendering a whole string's characters is injective.
proof fn lemma_esc_str_inj(a: Seq<char>, b: Seq<char>)
    requires
        esc_str(a) == esc_str(b),
    ensures
        a == b,
    decreases a.len(),
{
    if a.len() == 0 {
        if b.len() > 0 {
            assert(esc_str(b) == esc_char(b[0]) + esc_str(b.subrange(1, b.len() as int)));
            assert(esc_char(b[0]).len() >= 1);
            assert(esc_str(b).len() >= 1);
            assert(esc_str(a).len() == 0);
            assert(false);
        }
        assert(a =~= b);
    } else if b.len() == 0 {
        assert(esc_str(a) == esc_char(a[0]) + esc_str(a.subrange(1, a.len() as int)));
        assert(esc_char(a[0]).len() >= 1);
        assert(false);
    } else {
        assert(esc_str(a) == esc_char(a[0]) + esc_str(a.subrange(1, a.len() as int)));
        assert(esc_str(b) == esc_char(b[0]) + esc_str(b.subrange(1, b.len() as int)));
        lemma_esc_char_head(
            a[0],
            b[0],
            esc_str(a.subrange(1, a.len() as int)),
            esc_str(b.subrange(1, b.len() as int)),
        );
        lemma_esc_str_inj(a.subrange(1, a.len() as int), b.subrange(1, b.len() as int));
        assert forall|i: int| 0 <= i < a.len() implies a[i] == b[i] by {
            if i > 0 {
                assert(a.subrange(1, a.len() as int)[i - 1] == a[i]);
                assert(b.subrange(1, b.len() as int)[i - 1] == b[i]);
            }
        }
        assert(a =~= b);
    }
}

/// The quoted, escaped rendering of a string is lossless: two strings
/// render identically only when they are the same string.  This is the
/// string-level half of the document round trip; the fixed key skeleton
/// around the strings is pinned by [`json_doc`] itself.
pub proof fn lemma_json_string_lossless(a: Seq<char>, b: Seq<char>)
    requires
        json_string(a) == json_string(b),
    ensures
        a == b,
{
    reveal(json_string);
    let ja = json_string(a);
    let jb = json_string(b);
    assert(ja.len() == esc_str(a).len() + 2);
    assert(jb.len() == esc_str(b).len() + 2);
    assert forall|i: int| 0 <= i < esc_str(a).len() implies esc_str(a)[i] == esc_str(b)[i] by {
        assert(ja[i + 1] == esc_str(a)[i]);
        assert(jb[i + 1] == esc_str(b)[i]);
    }
    assert(esc_str(a) =~= esc_str(b));
    lemma_esc_str_inj(a, b);
}

} // verus!
