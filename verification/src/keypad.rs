//! Bathroom-code keypads: a finger starts on `5`, `U`/`D`/`L`/`R` move it
//! (ignoring moves off the pad), and any other character presses the current
//! key and resets the finger.

use vstd::prelude::*;
use vstd::string::StrSliceExecFns;

use crate::chars::push_char;

verus! {

/// A keypad a finger walks over. Each implementation gives its own start
/// state, key labelling and movement rules, described by spec functions that
/// the executable methods are proved to follow.
pub trait Keypad: Sized {
    /// The state the finger starts in and returns to after a key press.
    spec fn start_spec() -> Self;

    /// The states a finger can actually be in.
    spec fn wf(&self) -> bool;

    /// The key under the finger.
    spec fn key_spec(&self) -> char;

    spec fn left_spec(&self) -> Self;

    spec fn right_spec(&self) -> Self;

    spec fn up_spec(&self) -> Self;

    spec fn down_spec(&self) -> Self;

    fn new() -> (r: Self)
        ensures
            r == Self::start_spec(),
            r.wf(),
    ;

    fn reset(&mut self)
        ensures
            *final(self) == Self::start_spec(),
            final(self).wf(),
    ;

    fn get_key(&self) -> (r: char)
        requires
            self.wf(),
        ensures
            r == self.key_spec(),
    ;

    fn left(&mut self)
        requires
            old(self).wf(),
        ensures
            *final(self) == old(self).left_spec(),
            final(self).wf(),
    ;

    fn right(&mut self)
        requires
            old(self).wf(),
        ensures
            *final(self) == old(self).right_spec(),
            final(self).wf(),
    ;

    fn up(&mut self)
        requires
            old(self).wf(),
        ensures
            *final(self) == old(self).up_spec(),
            final(self).wf(),
    ;

    fn down(&mut self)
        requires
            old(self).wf(),
        ensures
            *final(self) == old(self).down_spec(),
            final(self).wf(),
    ;
}

/// What walking a code over a keypad produces: the final finger state and the
/// keys pressed, in order. `L`, `R`, `U`, `D` move; any other character
/// presses the current key and resets the finger.
pub open spec fn decode_spec<K: Keypad>(k: K, code: Seq<char>) -> (K, Seq<char>)
    decreases code.len(),
{
    if code.len() == 0 {
        (k, Seq::empty())
    } else {
        let c = code[0];
        if c == 'L' {
            decode_spec(k.left_spec(), code.skip(1))
        } else if c == 'R' {
            decode_spec(k.right_spec(), code.skip(1))
        } else if c == 'U' {
            decode_spec(k.up_spec(), code.skip(1))
        } else if c == 'D' {
            decode_spec(k.down_spec(), code.skip(1))
        } else {
            let rest = decode_spec(K::start_spec(), code.skip(1));
            (rest.0, seq![k.key_spec()] + rest.1)
        }
    }
}

/// Walks `code` over the keypad and returns the keys pressed.
pub fn decode<K: Keypad>(code: &str, keypad: &mut K) -> (r: String)
    requires
        old(keypad).wf(),
    ensures
        *final(keypad) == decode_spec(*old(keypad), code@).0,
        r@ == decode_spec(*old(keypad), code@).1,
{
    let n = code.unicode_len();
    let mut out = String::new();
    let mut i: usize = 0;
    proof {
        assert(code@.skip(0) =~= code@);
    }
    while i < n
        invariant
            i <= n,
            n == code@.len(),
            keypad.wf(),
            decode_spec(*old(keypad), code@).0 == decode_spec(*keypad, code@.skip(i as int)).0,
            decode_spec(*old(keypad), code@).1 == out@ + decode_spec(
                *keypad,
                code@.skip(i as int),
            ).1,
        decreases n - i,
    {
        let c = code.get_char(i);
        proof {
            assert(code@.skip(i as int)[0] == code@[i as int]);
            assert(code@.skip(i as int).skip(1) =~= code@.skip(i as int + 1));
        }
        let ghost k_pre = *keypad;
        if c == 'L' {
            keypad.left();
        } else if c == 'R' {
            keypad.right();
        } else if c == 'U' {
            keypad.up();
        } else if c == 'D' {
            keypad.down();
        } else {
            let key = keypad.get_key();
            push_char(&mut out, key);
            keypad.reset();
            proof {
                assert(out@.drop_last() + (seq![k_pre.key_spec()] + decode_spec(
                    *keypad,
                    code@.skip(i as int + 1),
                ).1) =~= out@ + decode_spec(*keypad, code@.skip(i as int + 1)).1);
            }
        }
        i = i + 1;
    }
    proof {
        assert(code@.skip(n as int) =~= Seq::<char>::empty());
        assert(out@ + Seq::<char>::empty() =~= out@);
    }
    out
}

/// The plain 3-by-3 keypad, keys `1` to `9`, finger position kept as the key
/// number itself.
pub struct SimpleKeypad {
    pub num: u8,
}

impl Keypad for SimpleKeypad {
    open spec fn start_spec() -> SimpleKeypad {
        SimpleKeypad { num: 5 }
    }

    open spec fn wf(&self) -> bool {
        1 <= self.num <= 9
    }

    open spec fn key_spec(&self) -> char {
        (('0' as u32 + self.num) as u32) as char
    }

    open spec fn left_spec(&self) -> SimpleKeypad {
        if (self.num - 1) % 3 == 0 {
            SimpleKeypad { num: self.num }
        } else {
            SimpleKeypad { num: (self.num - 1) as u8 }
        }
    }

    open spec fn right_spec(&self) -> SimpleKeypad {
        if (self.num - 1) % 3 == 2 {
            SimpleKeypad { num: self.num }
        } else {
            SimpleKeypad { num: (self.num + 1) as u8 }
        }
    }

    open spec fn up_spec(&self) -> SimpleKeypad {
        if (self.num - 1) / 3 == 0 {
            SimpleKeypad { num: self.num }
        } else {
            SimpleKeypad { num: (self.num - 3) as u8 }
        }
    }

    open spec fn down_spec(&self) -> SimpleKeypad {
        if (self.num - 1) / 3 == 2 {
            SimpleKeypad { num: self.num }
        } else {
            SimpleKeypad { num: (self.num + 3) as u8 }
        }
    }

    fn new() -> (r: SimpleKeypad) {
        SimpleKeypad { num: 5 }
    }

    fn reset(&mut self) {
        self.num = 5;
    }

    fn get_key(&self) -> (r: char) {
        match self.num {
            1 => '1',
            2 => '2',
            3 => '3',
            4 => '4',
            5 => '5',
            6 => '6',
            7 => '7',
            8 => '8',
            _ => '9',
        }
    }

    fn left(&mut self) {
        if (self.num - 1) % 3 != 0 {
            self.num = self.num - 1;
        }
    }

    fn right(&mut self) {
        if (self.num - 1) % 3 != 2 {
            self.num = self.num + 1;
        }
    }

    fn up(&mut self) {
        if (self.num - 1) / 3 != 0 {
            self.num = self.num - 3;
        }
    }

    fn down(&mut self) {
        if (self.num - 1) / 3 != 2 {
            self.num = self.num + 3;
        }
    }
}

/// The key at a position of the diamond-shaped keypad, or `None` off the
/// diamond.
pub open spec fn complex_key_at(row: int, col: int) -> Option<char> {
    if row == 0 && col == 2 {
        Some('1')
    } else if row == 1 && 1 <= col <= 3 {
        if col == 1 {
            Some('2')
        } else if col == 2 {
            Some('3')
        } else {
            Some('4')
        }
    } else if row == 2 && 0 <= col <= 4 {
        if col == 0 {
            Some('5')
        } else if col == 1 {
            Some('6')
        } else if col == 2 {
            Some('7')
        } else if col == 3 {
            Some('8')
        } else {
            Some('9')
        }
    } else if row == 3 && 1 <= col <= 3 {
        if col == 1 {
            Some('A')
        } else if col == 2 {
            Some('B')
        } else {
            Some('C')
        }
    } else if row == 4 && col == 2 {
        Some('D')
    } else {
        None
    }
}

/// The diamond-shaped keypad (`1` at the top through `D` at the bottom),
/// finger position kept as row and column.
pub struct ComplexKeypad {
    pub row: i8,
    pub col: i8,
}

impl ComplexKeypad {
    /// The key at the given position, if the position is on the pad.
    pub fn key_at(row: i8, col: i8) -> (r: Option<char>)
        ensures
            r == complex_key_at(row as int, col as int),
    {
        if row == 0 && col == 2 {
            Some('1')
        } else if row == 1 && 1 <= col && col <= 3 {
            if col == 1 {
                Some('2')
            } else if col == 2 {
                Some('3')
            } else {
                Some('4')
            }
        } else if row == 2 && 0 <= col && col <= 4 {
            if col == 0 {
                Some('5')
            } else if col == 1 {
                Some('6')
            } else if col == 2 {
                Some('7')
            } else if col == 3 {
                Some('8')
            } else {
                Some('9')
            }
        } else if row == 3 && 1 <= col && col <= 3 {
            if col == 1 {
                Some('A')
            } else if col == 2 {
                Some('B')
            } else {
                Some('C')
            }
        } else if row == 4 && col == 2 {
            Some('D')
        } else {
            None
        }
    }
}

impl Keypad for ComplexKeypad {
    open spec fn start_spec() -> ComplexKeypad {
        ComplexKeypad { row: 2, col: 0 }
    }

    open spec fn wf(&self) -> bool {
        &&& 0 <= self.row < 5
        &&& 0 <= self.col < 5
        &&& complex_key_at(self.row as int, self.col as int) is Some
    }

    open spec fn key_spec(&self) -> char {
        complex_key_at(self.row as int, self.col as int).unwrap()
    }

    open spec fn left_spec(&self) -> ComplexKeypad {
        let c = if self.col - 1 >= 0 {
            self.col - 1
        } else {
            0
        };
        if complex_key_at(self.row as int, c as int) is Some {
            ComplexKeypad { row: self.row, col: c as i8 }
        } else {
            ComplexKeypad { row: self.row, col: self.col }
        }
    }

    open spec fn right_spec(&self) -> ComplexKeypad {
        let c = if self.col + 1 <= 4 {
            self.col + 1
        } else {
            4
        };
        if complex_key_at(self.row as int, c as int) is Some {
            ComplexKeypad { row: self.row, col: c as i8 }
        } else {
            ComplexKeypad { row: self.row, col: self.col }
        }
    }

    open spec fn up_spec(&self) -> ComplexKeypad {
        let r = if self.row - 1 >= 0 {
            self.row - 1
        } else {
            0
        };
        if complex_key_at(r as int, self.col as int) is Some {
            ComplexKeypad { row: r as i8, col: self.col }
        } else {
            ComplexKeypad { row: self.row, col: self.col }
        }
    }

    open spec fn down_spec(&self) -> ComplexKeypad {
        let r = if self.row + 1 <= 4 {
            self.row + 1
        } else {
            4
        };
        if complex_key_at(r as int, self.col as int) is Some {
            ComplexKeypad { row: r as i8, col: self.col }
        } else {
            ComplexKeypad { row: self.row, col: self.col }
        }
    }

    fn new() -> (r: ComplexKeypad) {
        ComplexKeypad { row: 2, col: 0 }
    }

    fn reset(&mut self) {
        self.row = 2;
        self.col = 0;
    }

    fn get_key(&self) -> (r: char) {
        match Self::key_at(self.row, self.col) {
            Some(c) => c,
            None => '0',
        }
    }

    fn left(&mut self) {
        let c = if self.col - 1 >= 0 {
            self.col - 1
        } else {
            0
        };
        if Self::key_at(self.row, c).is_some() {
            self.col = c;
        }
    }

    fn right(&mut self) {
        let c = if self.col + 1 <= 4 {
            self.col + 1
        } else {
            4
        };
        if Self::key_at(self.row, c).is_some() {
            self.col = c;
        }
    }

    fn up(&mut self) {
        let r = if self.row - 1 >= 0 {
            self.row - 1
        } else {
            0
        };
        if Self::key_at(r, self.col).is_some() {
            self.row = r;
        }
    }

    fn down(&mut self) {
        let r = if self.row + 1 <= 4 {
            self.row + 1
        } else {
            4
        };
        if Self::key_at(r, self.col).is_some() {
            self.row = r;
        }
    }
}

} // verus!
