use vstd::prelude::*;

use crate::digit::{is_digit_of, lemma_digit_char_value, Base, WriteValue};
use crate::radix::{
    is_canonical, lemma_render_canonical, lemma_render_value_of, lemma_value_of_render,
    parse_radix, push_char, render, render_radix, value_of,
};

verus! {

/// The entry as a mathematical value: the active base and the digits shown.
pub struct EntryView {
    pub base: Base,
    pub buffer: Seq<char>,
}

/// The buffer holds only digits of the base and no superfluous leading zero.
pub open spec fn entry_wf(v: EntryView) -> bool {
    is_canonical(v.buffer, v.base.spec_radix())
}

/// The number the entry shows; an empty buffer counts as 0.
pub open spec fn entry_value(v: EntryView) -> nat {
    value_of(v.buffer, v.base.spec_radix())
}

/// The buffer as it reads once a value is needed: empty counts as `0`.
pub open spec fn effective(s: Seq<char>) -> Seq<char> {
    if s.len() == 0 {
        seq!['0']
    } else {
        s
    }
}

/// Appends `c`, first dropping a lone `0`.
pub open spec fn append_digit(s: Seq<char>, c: char) -> Seq<char> {
    if s == seq!['0'] {
        seq![c]
    } else {
        s.push(c)
    }
}

/// The entry after the digit key `d` was pressed.
pub open spec fn write_spec(v: EntryView, d: WriteValue) -> EntryView {
    if d.spec_allowed_in(v.base) {
        EntryView { base: v.base, buffer: append_digit(v.buffer, d.spec_char()) }
    } else {
        v
    }
}

/// The entry after pressing the digit keys `ds` in order.
pub open spec fn write_all(v: EntryView, ds: Seq<WriteValue>) -> EntryView
    decreases ds.len(),
{
    if ds.len() == 0 {
        v
    } else {
        write_spec(write_all(v, ds.drop_last()), ds.last())
    }
}

/// The entry after it was cleared.
pub open spec fn clear_spec(v: EntryView) -> EntryView {
    EntryView { base: v.base, buffer: Seq::empty() }
}

/// The entry after a switch to base `b`: the same number, written in `b`.
pub open spec fn set_base_spec(v: EntryView, b: Base) -> EntryView {
    EntryView { base: b, buffer: render(entry_value(v), b.spec_radix()) }
}

/// Why a digit key was refused.
#[derive(Clone, Debug, PartialEq, Eq, Structural)]
pub enum StateError {
    /// The digit, by its character, is no digit of the base.
    InvalidChar(char, Base),
}

/// The entry of the calculator: the active base and the digits typed so far.
pub struct State {
    base: Base,
    value: String,
}

impl View for State {
    type V = EntryView;

    closed spec fn view(&self) -> EntryView {
        EntryView { base: self.base, buffer: self.value@ }
    }
}

impl State {
    #[verifier::type_invariant]
    spec fn inv(self) -> bool {
        entry_wf(self@)
    }

    /// The active base.
    pub fn base(&self) -> (r: Base)
        ensures
            r == self@.base,
    {
        self.base
    }

    /// The digits shown, exactly as they are to be displayed.
    pub fn value(&self) -> (r: &str)
        ensures
            r@ == self@.buffer,
    {
        self.value.as_str()
    }

    /// Writes a digit to the internal value tracker.
    pub fn write(&mut self, value: &WriteValue) -> (r: Result<(), StateError>)
        ensures
            entry_wf(final(self)@),
            final(self)@ == write_spec(old(self)@, *value),
            value.spec_allowed_in(old(self)@.base) ==> r == Ok::<(), StateError>(()),
            !value.spec_allowed_in(old(self)@.base) ==> {
                &&& r == Err::<(), StateError>(StateError::InvalidChar(value.spec_char(), old(self)@.base))
                &&& final(self)@ == old(self)@
            },
    {
        proof {
            use_type_invariant(&*self);
        }
        let c = value.into_char();
        if !value.is_allowed_for_base(self.base) {
            return Err(StateError::InvalidChar(c, self.base));
        }
        let ghost old_buf = self.value@;
        let mut buf = String::new();
        std::mem::swap(&mut buf, &mut self.value);
        assert(buf@ == old_buf);
        if is_lone_zero(&buf) {
            buf = String::new();
        }
        push_char(&mut buf, c);
        proof {
            let radix = self.base.spec_radix();
            let s = append_digit(old_buf, c);
            lemma_digit_char_value(value.spec_value());
            assert(s =~= buf@);
            if old_buf.len() == 1 && old_buf[0] == '0' {
                assert(old_buf =~= seq!['0']);
            }
            assert(is_canonical(s, radix)) by {
                assert forall|i: int| 0 <= i < s.len() implies is_digit_of(
                    #[trigger] s[i],
                    radix,
                ) by {
                    if i < s.len() - 1 {
                        assert(s[i] == old_buf[i]);
                    }
                }
                if s.len() > 1 {
                    assert(s[0] == old_buf[0]);
                }
            }
        }
        self.value = buf;
        Ok(())
    }

    /// Clears internal value tracker.
    pub fn clear(&mut self)
        ensures
            entry_wf(final(self)@),
            final(self)@ == clear_spec(old(self)@),
    {
        self.value = String::new();
    }

    /// The number the entry shows, or `None` when it exceeds `i128::MAX`.
    pub fn value_base_10(&self) -> (r: Option<i128>)
        ensures
            r == (if entry_value(self@) <= i128::MAX {
                Some(entry_value(self@) as i128)
            } else {
                None
            }),
    {
        proof {
            use_type_invariant(self);
        }
        parse_radix(self.value.as_str(), self.base.radix())
    }

    /// Switches to `next_base`, writing the same number in it.
    pub fn set_base(&mut self, next_base: &Base)
        requires
            entry_value(old(self)@) <= i128::MAX,
        ensures
            entry_wf(final(self)@),
            final(self)@ == set_base_spec(old(self)@, *next_base),
    {
        let n = self.value_base_10().unwrap();
        let text = render_radix(n as u128, next_base.radix());
        proof {
            lemma_render_canonical(n as nat, next_base.spec_radix());
        }
        *self = State { base: *next_base, value: text };
    }
}

/// `s` is the single digit `0`.
fn is_lone_zero(s: &String) -> (r: bool)
    ensures
        r == (s@ == seq!['0']),
{
    let t = s.as_str();
    if t.unicode_len() != 1 {
        assert(t@.len() != 1);
        return false;
    }
    let c = t.get_char(0);
    if c == '0' {
        assert(t@ =~= seq!['0']);
        true
    } else {
        false
    }
}

impl Default for State {
    fn default() -> (r: State)
        ensures
            entry_wf(r@),
            r@ == (EntryView { base: Base::Decimal, buffer: Seq::empty() }),
    {
        State { base: Base::Decimal, value: String::new() }
    }
}

impl Clone for State {
    fn clone(&self) -> (r: State)
        ensures
            entry_wf(r@),
            r@ == self@,
    {
        proof {
            use_type_invariant(self);
        }
        State { base: self.base, value: self.value.clone() }
    }
}

/// Pressing valid digit keys from a cleared entry shows their characters in order,
/// unless the first of two or more keys is `0` (a lone `0` gives way to the next digit).
pub proof fn lemma_accumulation(b: Base, ds: Seq<WriteValue>)
    requires
        forall|i: int| 0 <= i < ds.len() ==> (#[trigger] ds[i]).spec_allowed_in(b),
        ds.len() >= 2 ==> ds[0].spec_value() != 0,
    ensures
        write_all(EntryView { base: b, buffer: Seq::empty() }, ds) == (EntryView {
            base: b,
            buffer: ds.map_values(|d: WriteValue| d.spec_char()),
        }),
    decreases ds.len(),
{
    let start = EntryView { base: b, buffer: Seq::empty() };
    if ds.len() == 0 {
        assert(ds.map_values(|d: WriteValue| d.spec_char()) =~= Seq::<char>::empty());
    } else {
        let t = ds.drop_last();
        let d = ds.last();
        assert(d == ds[ds.len() - 1]);
        assert forall|i: int| 0 <= i < t.len() implies (#[trigger] t[i]).spec_allowed_in(b) by {
            assert(t[i] == ds[i]);
        }
        if t.len() >= 2 {
            assert(t[0] == ds[0]);
        }
        lemma_accumulation(b, t);
        let prev = t.map_values(|d: WriteValue| d.spec_char());
        if prev == seq!['0'] {
            assert(t[0].spec_char() == prev[0]);
            assert(t[0] == ds[0]);
            lemma_digit_char_value(ds[0].spec_value());
        }
        assert(prev.push(d.spec_char()) =~= ds.map_values(|d: WriteValue| d.spec_char()));
    }
}

/// Clearing empties the buffer and keeps the base, whatever came before; clearing twice
/// is clearing once.
pub proof fn lemma_clear_idempotent(v: EntryView)
    ensures
        clear_spec(v).buffer.len() == 0,
        clear_spec(v).base == v.base,
        clear_spec(clear_spec(v)) == clear_spec(v),
{
}

/// Switching from the entry's base to `b` keeps the number shown, and switching back
/// gives the original digits (an empty buffer comes back as `0`).
pub proof fn lemma_base_round_trip(v: EntryView, b: Base)
    requires
        entry_wf(v),
    ensures
        entry_wf(set_base_spec(v, b)),
        entry_value(set_base_spec(v, b)) == entry_value(v),
        set_base_spec(set_base_spec(v, b), v.base).buffer == effective(v.buffer),
        set_base_spec(set_base_spec(v, b), v.base).base == v.base,
{
    let n = entry_value(v);
    lemma_value_of_render(n, b.spec_radix());
    lemma_render_canonical(n, b.spec_radix());
    if v.buffer.len() == 0 {
        assert(n == 0);
        assert(render(0, v.base.spec_radix()) =~= seq!['0']);
    } else {
        lemma_render_value_of(v.buffer, v.base.spec_radix());
    }
}

} // verus!
