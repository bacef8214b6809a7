use crate::startup::{auto_mode_of, interface_of, lowered, normalized, UserInterface};
use crate::text::{before, blank, bytes_before, lemma_trimmed_is_trimmed, trimmed, white_space};
use vstd::prelude::*;
use vstd::utf8::encode_utf8;

verus! {

/// Trimming leaves the middle of a text: what is cut off at either end is white space, and what
/// is left neither begins nor ends with any.
pub proof fn lemma_trimmed_is_the_middle(s: Seq<char>) -> (ends: (int, int))
    ensures
        0 <= ends.0 <= ends.1 <= s.len(),
        trimmed(s) == s.subrange(ends.0, ends.1),
        forall|i: int| 0 <= i < ends.0 ==> white_space(#[trigger] s[i]),
        forall|i: int| ends.1 <= i < s.len() ==> white_space(#[trigger] s[i]),
        ends.0 < ends.1 ==> !white_space(s[ends.0]) && !white_space(s[ends.1 - 1]),
    decreases s.len(),
{
    if s.len() == 0 {
        assert(s.subrange(0, 0) =~= s);
        (0, 0)
    } else if white_space(s.first()) {
        let rest = s.drop_first();
        let (i, j) = lemma_trimmed_is_the_middle(rest);
        assert(rest.subrange(i, j) =~= s.subrange(i + 1, j + 1));
        assert forall|k: int| 0 <= k < i + 1 implies white_space(#[trigger] s[k]) by {
            if k > 0 {
                assert(rest[k - 1] == s[k]);
            }
        }
        assert forall|k: int| j + 1 <= k < s.len() implies white_space(#[trigger] s[k]) by {
            assert(rest[k - 1] == s[k]);
        }
        (i + 1, j + 1)
    } else if white_space(s.last()) {
        let rest = s.drop_last();
        let (i, j) = lemma_trimmed_is_the_middle(rest);
        assert(rest.subrange(i, j) =~= s.subrange(i, j));
        assert forall|k: int| 0 <= k < i implies white_space(#[trigger] s[k]) by {
            assert(rest[k] == s[k]);
        }
        assert forall|k: int| j <= k < s.len() implies white_space(#[trigger] s[k]) by {
            if k < rest.len() {
                assert(rest[k] == s[k]);
            }
        }
        (i, j)
    } else {
        assert(s.subrange(0, s.len() as int) =~= s);
        (0, s.len() as int)
    }
}

/// A text is blank where it is white space throughout.
pub proof fn lemma_blank_is_white_throughout(s: Seq<char>)
    ensures
        blank(s) <==> forall|i: int| 0 <= i < s.len() ==> white_space(#[trigger] s[i]),
{
    let (i, j) = lemma_trimmed_is_the_middle(s);
    if i < j {
        assert(!white_space(s[i]));
    } else {
        assert forall|k: int| 0 <= k < s.len() implies white_space(#[trigger] s[k]) by {}
    }
}

/// White space around a text makes no difference to what trimming leaves.
pub proof fn lemma_white_space_around_is_cut(before_it: char, s: Seq<char>, after_it: char)
    requires
        white_space(before_it),
        white_space(after_it),
    ensures
        trimmed(seq![before_it] + s) == trimmed(s),
        trimmed(s.push(after_it)) == trimmed(s),
{
    let front = seq![before_it] + s;
    assert(front.drop_first() =~= s);
    lemma_trailing_is_cut(s, after_it);
}

proof fn lemma_trailing_is_cut(s: Seq<char>, after_it: char)
    requires
        white_space(after_it),
    ensures
        trimmed(s.push(after_it)) == trimmed(s),
    decreases s.len(),
{
    let back = s.push(after_it);
    assert(back.drop_last() =~= s);
    if s.len() == 0 {
        assert(back.drop_first() =~= s);
    } else if white_space(s.first()) {
        assert(back.drop_first() =~= s.drop_first().push(after_it));
        lemma_trailing_is_cut(s.drop_first(), after_it);
    }
}

/// Two texts are ordered by the first byte in which they differ.
pub proof fn lemma_first_difference_decides(a: Seq<char>, b: Seq<char>, at: int)
    requires
        0 <= at < encode_utf8(a).len(),
        at < encode_utf8(b).len(),
        forall|i: int| 0 <= i < at ==> encode_utf8(a)[i] == encode_utf8(b)[i],
        encode_utf8(a)[at] != encode_utf8(b)[at],
    ensures
        before(a, b) <==> encode_utf8(a)[at] < encode_utf8(b)[at],
{
    lemma_bytes_difference(encode_utf8(a), encode_utf8(b), at);
}

/// A text comes before those that it begins, and before none that begins it.
pub proof fn lemma_beginning_comes_first(a: Seq<char>, b: Seq<char>)
    requires
        encode_utf8(a).len() <= encode_utf8(b).len(),
        encode_utf8(a) == encode_utf8(b).take(encode_utf8(a).len() as int),
    ensures
        before(a, b) <==> encode_utf8(a).len() < encode_utf8(b).len(),
        !before(b, a),
{
    lemma_bytes_beginning(encode_utf8(a), encode_utf8(b));
}

proof fn lemma_bytes_difference(x: Seq<u8>, y: Seq<u8>, at: int)
    requires
        0 <= at < x.len(),
        at < y.len(),
        forall|i: int| 0 <= i < at ==> x[i] == y[i],
        x[at] != y[at],
    ensures
        bytes_before(x, y) <==> x[at] < y[at],
    decreases at,
{
    if at > 0 {
        assert(x[0] == y[0]);
        assert forall|i: int| 0 <= i < at - 1 implies x.drop_first()[i] == y.drop_first()[i] by {
            assert(x[i + 1] == y[i + 1]);
        }
        lemma_bytes_difference(x.drop_first(), y.drop_first(), at - 1);
    }
}

proof fn lemma_bytes_beginning(x: Seq<u8>, y: Seq<u8>)
    requires
        x.len() <= y.len(),
        x == y.take(x.len() as int),
    ensures
        bytes_before(x, y) <==> x.len() < y.len(),
        !bytes_before(y, x),
    decreases x.len(),
{
    if x.len() > 0 {
        assert(x[0] == y[0]);
        assert(x.drop_first() =~= y.drop_first().take(x.len() - 1));
        lemma_bytes_beginning(x.drop_first(), y.drop_first());
    }
}

/// Lowering changes the capital letters of ASCII into the small ones, 32 places further on, and
/// nothing else.
pub proof fn lemma_lowering_touches_capitals_only(raw: Seq<char>, i: int)
    requires
        0 <= i < raw.len(),
    ensures
        lowered(raw).len() == raw.len(),
        'A' <= raw[i] <= 'Z' ==> lowered(raw)[i] as u32 == raw[i] as u32 + 32,
        !('A' <= raw[i] <= 'Z') ==> lowered(raw)[i] == raw[i],
{
}

/// A setting means the same in capital letters, and with white space around it.
pub proof fn lemma_normalising_ignores_case_and_white_space(raw: Seq<char>, c: char)
    ensures
        lowered(lowered(raw)) == lowered(raw),
        white_space(c) ==> normalized(raw.push(c)) == normalized(raw),
        white_space(c) ==> normalized(seq![c] + raw) == normalized(raw),
        normalized(raw) == lowered(trimmed(raw)),
        normalized(raw).len() == trimmed(raw).len(),
        normalized(trimmed(raw)) == normalized(raw),
{
    assert(lowered(lowered(raw)) =~= lowered(raw));
    lemma_trimmed_is_trimmed(raw);
    if white_space(c) {
        lemma_white_space_around_is_cut(c, raw, c);
    }
}

/// Every mode either quotes, is switched off, or is unknown, and only the first of these does
/// anything. Orders are sent as the confirmation says; that it does not allow what was asked for
/// is told in the one mode that asks for it.
pub proof fn lemma_modes_are_told_apart(mode: Seq<char>, live_allowed: bool)
    ensures
        ({
            let r = auto_mode_of(mode, live_allowed);
            &&& r.enabled <==> mode == "shadow"@ || mode == "live"@
            &&& !r.enabled && !r.unknown <==> mode == Seq::<char>::empty() || mode == "off"@
            &&& !(r.enabled && r.unknown)
            &&& r.live == live_allowed
            &&& r.unconfirmed <==> mode == "live"@ && !r.live
        }),
        auto_mode_of(mode, true).enabled == auto_mode_of(mode, false).enabled,
        auto_mode_of(mode, true).unknown == auto_mode_of(mode, false).unknown,
{
    reveal_strlit("shadow");
    reveal_strlit("live");
    reveal_strlit("off");
    assert("shadow"@.len() == 6 && "live"@.len() == 4 && "off"@.len() == 3);
    if mode.len() == 0 {
        assert(mode =~= Seq::<char>::empty());
    }
    assert(mode == "live"@ ==> mode != "shadow"@);
}

/// The dashboard is served only where it is enabled and asked for, and opened only where that is
/// asked for too; the terminal does not depend on either switch; and letters may be capital.
pub proof fn lemma_interface_follows_its_switches(ui_mode: Seq<char>, dashboard: bool, open: bool)
    ensures
        ({
            let web = lowered(ui_mode) == "web"@;
            let r = interface_of(ui_mode, dashboard, open);
            &&& r == UserInterface::WebOpened <==> web && dashboard && open
            &&& r == UserInterface::WebLogged <==> web && dashboard && !open
            &&& r == UserInterface::Terminal <==> lowered(ui_mode) == "tui"@
        }),
        interface_of(lowered(ui_mode), dashboard, open) == interface_of(ui_mode, dashboard, open),
{
    reveal_strlit("web");
    reveal_strlit("tui");
    assert("web"@[0] != "tui"@[0]);
    assert(lowered(lowered(ui_mode)) =~= lowered(ui_mode));
}

} // verus!
