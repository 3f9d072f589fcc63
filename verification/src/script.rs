//! Rendering a change list as a shell setup script.
//!
//! Each set edit becomes an `export NAME=VALUE` line and each clear edit an
//! `unset NAME` line; all export lines precede all unset lines. A variable
//! whose name or value is not valid text is skipped and reported instead of
//! rendered.

use vstd::prelude::*;
use vstd::utf8::valid_utf8;

use crate::bytes::copy_bytes;

verus! {

/// `export ` as bytes.
pub open spec fn export_prefix() -> Seq<u8> {
    seq![101u8, 120u8, 112u8, 111u8, 114u8, 116u8, 32u8]
}

/// `unset ` as bytes.
pub open spec fn unset_prefix() -> Seq<u8> {
    seq![117u8, 110u8, 115u8, 101u8, 116u8, 32u8]
}

/// True when the entry can be rendered as text: its name is valid text, and
/// so is its value if it sets one.
pub open spec fn renderable(e: (Vec<u8>, Option<Vec<u8>>)) -> bool {
    match e.1 {
        Option::Some(v) => valid_utf8(e.0@) && valid_utf8(v@),
        Option::None => valid_utf8(e.0@),
    }
}

/// The line `export NAME=VALUE` followed by a newline.
pub open spec fn export_line(name: Seq<u8>, value: Seq<u8>) -> Seq<u8> {
    export_prefix() + name + seq![61u8] + value + seq![10u8]
}

/// The line `unset NAME` followed by a newline.
pub open spec fn unset_line(name: Seq<u8>) -> Seq<u8> {
    unset_prefix() + name + seq![10u8]
}

/// The export lines of a change list, in order: one for each renderable
/// entry that sets a value.
pub open spec fn exports_text(cs: Seq<(Vec<u8>, Option<Vec<u8>>)>) -> Seq<u8>
    decreases cs.len(),
{
    if cs.len() == 0 {
        Seq::empty()
    } else {
        exports_text(cs.drop_last()) + (match cs.last().1 {
            Option::Some(v) => if renderable(cs.last()) {
                export_line(cs.last().0@, v@)
            } else {
                Seq::empty()
            },
            Option::None => Seq::empty(),
        })
    }
}

/// The unset lines of a change list, in order: one for each renderable
/// entry that clears a value.
pub open spec fn unsets_text(cs: Seq<(Vec<u8>, Option<Vec<u8>>)>) -> Seq<u8>
    decreases cs.len(),
{
    if cs.len() == 0 {
        Seq::empty()
    } else {
        unsets_text(cs.drop_last()) + (match cs.last().1 {
            Option::Some(_) => Seq::empty(),
            Option::None => if renderable(cs.last()) {
                unset_line(cs.last().0@)
            } else {
                Seq::empty()
            },
        })
    }
}

/// The names of the entries of a change list that cannot be rendered, in
/// order.
pub open spec fn skipped_names(cs: Seq<(Vec<u8>, Option<Vec<u8>>)>) -> Seq<Seq<u8>>
    decreases cs.len(),
{
    if cs.len() == 0 {
        Seq::empty()
    } else {
        skipped_names(cs.drop_last()) + (if renderable(cs.last()) {
            Seq::empty()
        } else {
            seq![cs.last().0@]
        })
    }
}

/// The whole script: all export lines, then all unset lines.
pub open spec fn script_text(cs: Seq<(Vec<u8>, Option<Vec<u8>>)>) -> Seq<u8> {
    exports_text(cs) + unsets_text(cs)
}

/// A rendered setup script: the script text, and the names of the variables
/// that were skipped because they cannot be represented as text.
#[derive(Debug, PartialEq)]
pub struct Script {
    pub text: Vec<u8>,
    pub skipped: Vec<Vec<u8>>,
}

/// Decides whether `v` is valid UTF-8.
pub fn is_valid_utf8(v: &Vec<u8>) -> (r: bool)
    ensures
        r == valid_utf8(v@),
{
    let n = v.len();
    let mut i: usize = 0;
    proof {
        assert(v@.skip(0) =~= v@);
    }
    while i < n
        invariant
            i <= n,
            n == v@.len(),
            valid_utf8(v@) == valid_utf8(v@.skip(i as int)),
        decreases n - i,
    {
        let ghost s = v@.skip(i as int);
        proof {
            assert(s.len() == n - i);
            assert forall|j: int| 0 <= j < s.len() implies s[j] == v@[i + j] by {}
        }
        let b0 = v[i];
        proof {
            assert(s[0] == b0);
        }
        if b0 < 0x80 {
            proof {
                assert(vstd::utf8::valid_leading_and_continuation_bytes_first_codepoint(s));
                assert(vstd::utf8::decode_first_codepoint(s) == ((b0 & 0x7f) as u32));
                assert(b0 & 0x7f < 0x80) by (bit_vector);
                assert(vstd::utf8::valid_first_scalar(s));
                assert(vstd::utf8::length_of_first_scalar(s) == 1);
                lemma_utf8_step(v@, i as int, 1);
            }
            i = i + 1;
        } else if b0 < 0xC0 {
            proof {
                lemma_utf8_fail(v@, i as int);
            }
            return false;
        } else if b0 < 0xE0 {
            if n - i < 2 {
                proof {
                    lemma_utf8_fail(v@, i as int);
                }
                return false;
            }
            let b1 = v[i + 1];
            proof {
                assert(s[1] == b1);
            }
            if !(0x80 <= b1 && b1 < 0xC0) {
                proof {
                    lemma_utf8_fail(v@, i as int);
                }
                return false;
            }
            let cp: u32 = (((b0 & 0x1F) as u32) << 6u32) | ((b1 & 0x3F) as u32);
            if cp < 0x80 {
                proof {
                    lemma_utf8_fail(v@, i as int);
                }
                return false;
            }
            proof {
                assert(vstd::utf8::valid_leading_and_continuation_bytes_first_codepoint(s));
                assert(vstd::utf8::decode_first_codepoint(s) == cp);
                assert((((b0 & 0x1F) as u32) << 6u32) | ((b1 & 0x3F) as u32)
                    < 0x800) by (bit_vector);
                assert(vstd::utf8::valid_first_scalar(s));
                assert(vstd::utf8::length_of_first_scalar(s) == 2);
                lemma_utf8_step(v@, i as int, 2);
            }
            i = i + 2;
        } else if b0 < 0xF0 {
            if n - i < 3 {
                proof {
                    lemma_utf8_fail(v@, i as int);
                }
                return false;
            }
            let b1 = v[i + 1];
            let b2 = v[i + 2];
            proof {
                assert(s[1] == b1 && s[2] == b2);
            }
            if !(0x80 <= b1 && b1 < 0xC0) || !(0x80 <= b2 && b2 < 0xC0) {
                proof {
                    lemma_utf8_fail(v@, i as int);
                }
                return false;
            }
            let cp: u32 = (((b0 & 0x0F) as u32) << 12u32) | (((b1 & 0x3F) as u32) << 6u32)
                | ((b2 & 0x3F) as u32);
            if cp < 0x800 || (0xD800 <= cp && cp <= 0xDFFF) {
                proof {
                    lemma_utf8_fail(v@, i as int);
                }
                return false;
            }
            proof {
                assert(vstd::utf8::valid_leading_and_continuation_bytes_first_codepoint(s));
                assert(vstd::utf8::decode_first_codepoint(s) == cp);
                assert(vstd::utf8::valid_first_scalar(s));
                assert(vstd::utf8::length_of_first_scalar(s) == 3);
                lemma_utf8_step(v@, i as int, 3);
            }
            i = i + 3;
        } else if b0 < 0xF8 {
            if n - i < 4 {
                proof {
                    lemma_utf8_fail(v@, i as int);
                }
                return false;
            }
            let b1 = v[i + 1];
            let b2 = v[i + 2];
            let b3 = v[i + 3];
            proof {
                assert(s[1] == b1 && s[2] == b2 && s[3] == b3);
            }
            if !(0x80 <= b1 && b1 < 0xC0) || !(0x80 <= b2 && b2 < 0xC0) || !(0x80 <= b3
                && b3 < 0xC0) {
                proof {
                    lemma_utf8_fail(v@, i as int);
                }
                return false;
            }
            let cp: u32 = (((b0 & 0x07) as u32) << 18u32) | (((b1 & 0x3F) as u32)
                << 12u32) | (((b2 & 0x3F) as u32) << 6u32) | ((b3 & 0x3F) as u32);
            if cp < 0x10000 || cp > 0x10FFFF {
                proof {
                    lemma_utf8_fail(v@, i as int);
                }
                return false;
            }
            proof {
                assert(vstd::utf8::valid_leading_and_continuation_bytes_first_codepoint(s));
                assert(vstd::utf8::decode_first_codepoint(s) == cp);
                assert(vstd::utf8::valid_first_scalar(s));
                assert(vstd::utf8::length_of_first_scalar(s) == 4);
                lemma_utf8_step(v@, i as int, 4);
            }
            i = i + 4;
        } else {
            proof {
                lemma_utf8_fail(v@, i as int);
            }
            return false;
        }
    }
    proof {
        assert(v@.skip(n as int) =~= Seq::<u8>::empty());
        assert(valid_utf8(v@.skip(n as int)));
    }
    true
}

/// A step of UTF-8 validation: when the suffix at `i` begins with a
/// well-formed scalar of `w` bytes, validity of the suffix at `i` is
/// validity of the suffix at `i + w`.
proof fn lemma_utf8_step(bytes: Seq<u8>, i: int, w: int)
    requires
        0 <= i,
        i + w <= bytes.len(),
        vstd::utf8::valid_first_scalar(bytes.skip(i)),
        vstd::utf8::length_of_first_scalar(bytes.skip(i)) == w,
    ensures
        valid_utf8(bytes.skip(i)) == valid_utf8(bytes.skip(i + w)),
{
    let s = bytes.skip(i);
    assert(s.len() != 0);
    assert(vstd::utf8::pop_first_scalar(s) =~= bytes.skip(i + w));
}

/// A failed step of UTF-8 validation: when the suffix at `i` does not begin
/// with a well-formed scalar, the suffix (and so the whole) is not valid.
proof fn lemma_utf8_fail(bytes: Seq<u8>, i: int)
    requires
        0 <= i < bytes.len(),
        !vstd::utf8::valid_first_scalar(bytes.skip(i)),
    ensures
        !valid_utf8(bytes.skip(i)),
{
    let s = bytes.skip(i);
    assert(s.len() != 0);
}

/// Renders a change list as a setup script: an `export NAME=VALUE` line for
/// every renderable set edit, then an `unset NAME` line for every renderable
/// clear edit, a trailing newline after each line; the names of entries that
/// cannot be represented as text are collected instead of rendered.
pub fn render_setup_script(changes: &Vec<(Vec<u8>, Option<Vec<u8>>)>) -> (r: Script)
    ensures
        r.text@ == script_text(changes@),
        r.skipped@.map_values(|s: Vec<u8>| s@) == skipped_names(changes@),
{
    let n = changes.len();
    let mut setters: Vec<u8> = Vec::new();
    let mut unsetters: Vec<u8> = Vec::new();
    let mut skipped: Vec<Vec<u8>> = Vec::new();
    let mut i: usize = 0;
    while i < n
        invariant
            i <= n,
            n == changes@.len(),
            setters@ == exports_text(changes@.take(i as int)),
            unsetters@ == unsets_text(changes@.take(i as int)),
            skipped@.map_values(|s: Vec<u8>| s@) == skipped_names(changes@.take(i as int)),
        decreases n - i,
    {
        proof {
            lemma_render_take_step(changes@, i as int);
        }
        let name = &changes[i].0;
        let name_ok = is_valid_utf8(name);
        match &changes[i].1 {
            Option::Some(value) => {
                if name_ok && is_valid_utf8(value) {
                    push_export_prefix(&mut setters);
                    append_bytes(&mut setters, name);
                    setters.push(61);
                    append_bytes(&mut setters, value);
                    setters.push(10);
                    proof {
                        assert(setters@ =~= exports_text(changes@.take(i as int))
                            + export_line(name@, value@));
                    }
                } else {
                    skipped.push(copy_bytes(name));
                    proof {
                        assert(skipped@.map_values(|s: Vec<u8>| s@) =~= skipped_names(
                            changes@.take(i as int),
                        ).push(name@));
                        assert(skipped_names(changes@.take(i as int)).push(name@)
                            =~= skipped_names(changes@.take(i as int)) + seq![name@]);
                    }
                }
            },
            Option::None => {
                if name_ok {
                    push_unset_prefix(&mut unsetters);
                    append_bytes(&mut unsetters, name);
                    unsetters.push(10);
                    proof {
                        assert(unsetters@ =~= unsets_text(changes@.take(i as int))
                            + unset_line(name@));
                    }
                } else {
                    skipped.push(copy_bytes(name));
                    proof {
                        assert(skipped@.map_values(|s: Vec<u8>| s@) =~= skipped_names(
                            changes@.take(i as int),
                        ).push(name@));
                        assert(skipped_names(changes@.take(i as int)).push(name@)
                            =~= skipped_names(changes@.take(i as int)) + seq![name@]);
                    }
                }
            },
        }
        i = i + 1;
    }
    proof {
        assert(changes@.take(n as int) =~= changes@);
    }
    let mut text = setters;
    append_bytes(&mut text, &unsetters);
    Script { text, skipped }
}

/// Extending a rendering by one entry appends exactly that entry's
/// contribution to each of the three outputs.
proof fn lemma_render_take_step(cs: Seq<(Vec<u8>, Option<Vec<u8>>)>, i: int)
    requires
        0 <= i < cs.len(),
    ensures
        exports_text(cs.take(i + 1)) == exports_text(cs.take(i)) + (match cs[i].1 {
            Option::Some(v) => if renderable(cs[i]) {
                export_line(cs[i].0@, v@)
            } else {
                Seq::empty()
            },
            Option::None => Seq::<u8>::empty(),
        }),
        unsets_text(cs.take(i + 1)) == unsets_text(cs.take(i)) + (match cs[i].1 {
            Option::Some(_) => Seq::<u8>::empty(),
            Option::None => if renderable(cs[i]) {
                unset_line(cs[i].0@)
            } else {
                Seq::empty()
            },
        }),
        skipped_names(cs.take(i + 1)) == skipped_names(cs.take(i)) + (if renderable(
            cs[i],
        ) {
            Seq::<Seq<u8>>::empty()
        } else {
            seq![cs[i].0@]
        }),
{
    assert(cs.take(i + 1).drop_last() =~= cs.take(i));
    assert(cs.take(i + 1).last() == cs[i]);
}

/// Appends `export ` to the buffer.
fn push_export_prefix(dst: &mut Vec<u8>)
    ensures
        final(dst)@ == old(dst)@ + export_prefix(),
{
    dst.push(101);
    dst.push(120);
    dst.push(112);
    dst.push(111);
    dst.push(114);
    dst.push(116);
    dst.push(32);
    proof {
        assert(dst@ =~= old(dst)@ + export_prefix());
    }
}

/// Appends `unset ` to the buffer.
fn push_unset_prefix(dst: &mut Vec<u8>)
    ensures
        final(dst)@ == old(dst)@ + unset_prefix(),
{
    dst.push(117);
    dst.push(110);
    dst.push(115);
    dst.push(101);
    dst.push(116);
    dst.push(32);
    proof {
        assert(dst@ =~= old(dst)@ + unset_prefix());
    }
}

/// Appends a copy of `src` to the buffer.
fn append_bytes(dst: &mut Vec<u8>, src: &Vec<u8>)
    ensures
        final(dst)@ == old(dst)@ + src@,
{
    let n = src.len();
    let mut i: usize = 0;
    while i < n
        invariant
            i <= n,
            n == src@.len(),
            dst@ == old(dst)@ + src@.take(i as int),
        decreases n - i,
    {
        dst.push(src[i]);
        proof {
            assert(old(dst)@ + src@.take(i as int + 1) =~= (old(dst)@ + src@.take(
                i as int,
            )).push(src@[i as int]));
        }
        i = i + 1;
    }
    proof {
        assert(src@.take(n as int) =~= src@);
    }
}

} // verus!
