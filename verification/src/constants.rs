//! Named constants: a fixed table from names to values.
use crate::number::float_difference;
use crate::number::Number;
use crate::number::SIGN_BIT;
use vstd::prelude::*;
use vstd::string::StringExecFns;

verus! {

/// The pattern of the circle constant.
pub const PI_BITS: u64 = 0x4009_21fb_5444_2d18;

/// The pattern of the base of the natural logarithm.
pub const E_BITS: u64 = 0x4005_bf0a_8b14_5769;

/// The pattern of one degree in radians.
pub const DEGREE_BITS: u64 = 0x3f91_df46_a252_9d39;

/// The pattern of positive infinity.
pub const INF_BITS: u64 = 0x7ff0_0000_0000_0000;

/// The pattern of the not-a-number constant.
pub const NAN_BITS: u64 = 0x7ff8_0000_0000_0000;

/// The pattern of `2^-52`, the distance from one to the next value.
pub const EPSILON_BITS: u64 = 0x3cb0_0000_0000_0000;

/// The table: each name with its value, in a fixed order.
pub open spec fn constant_table() -> Seq<(Seq<char>, Number)> {
    seq![
        (seq!['p', 'i'], Number { bits: PI_BITS }),
        (seq!['π'], Number { bits: PI_BITS }),
        (seq!['e'], Number { bits: E_BITS }),
        (seq!['e', 'u', 'l', 'e', 'r'], Number { bits: E_BITS }),
        (seq!['d', 'e', 'g'], Number { bits: DEGREE_BITS }),
        (seq!['d', 'e', 'g', 'r', 'e', 'e'], Number { bits: DEGREE_BITS }),
        (seq!['i', 'n', 'f'], Number { bits: INF_BITS }),
        (seq!['i', 'n', 'f', 'i', 'n', 'i', 't', 'y'], Number { bits: INF_BITS }),
        (seq!['n', 'a', 'n'], Number { bits: NAN_BITS }),
    ]
}

/// The first entry of `table` from `from` on that is called `name`.
pub open spec fn find_name(table: Seq<(Seq<char>, Number)>, name: Seq<char>, from: int) -> Option<
    Number,
>
    decreases table.len() - from,
{
    if from < 0 || from >= table.len() {
        None
    } else if table[from].0 == name {
        Some(table[from].1)
    } else {
        find_name(table, name, from + 1)
    }
}

/// The value of the constant called `name`.
pub open spec fn constant_value(name: Seq<char>) -> Option<Number> {
    find_name(constant_table(), name, 0)
}

/// Whether the distance between two values is below `2^-52`.
pub open spec fn is_close(value: Number, constant: Number) -> bool {
    (Number { bits: float_difference(value.bits, constant.bits) }).magnitude() < EPSILON_BITS
}

/// The name of the first entry of `table` from `from` on whose value is close
/// to `value`.
pub open spec fn find_value(table: Seq<(Seq<char>, Number)>, value: Number, from: int) -> Option<
    Seq<char>,
>
    decreases table.len() - from,
{
    if from < 0 || from >= table.len() {
        None
    } else if is_close(value, table[from].1) {
        Some(table[from].0)
    } else {
        find_value(table, value, from + 1)
    }
}

/// The first name in the table whose value is close to `value`.
pub open spec fn constant_name(value: Number) -> Option<Seq<char>> {
    find_value(constant_table(), value, 0)
}

/// The names and values of a sequence of entries.
pub open spec fn entries_of(values: Seq<(String, Number)>) -> Seq<(Seq<char>, Number)> {
    Seq::new(values.len(), |i: int| (values[i].0@, values[i].1))
}

/// The table of constants.
pub struct Constants {
    values: Vec<(String, Number)>,
}

impl Constants {
    /// The table holds the constants, and nothing else.
    #[verifier::type_invariant]
    spec fn holds_the_table(self) -> bool {
        entries_of(self.values@) == constant_table()
    }

    /// The entries that the table holds.
    pub closed spec fn entries(&self) -> Seq<(Seq<char>, Number)> {
        entries_of(self.values@)
    }

    /// The table of the nine constants.
    pub fn new() -> (r: Constants)
        ensures
            r.entries() == constant_table(),
    {
        proof {
            reveal_strlit("pi");
            reveal_strlit("π");
            reveal_strlit("e");
            reveal_strlit("euler");
            reveal_strlit("deg");
            reveal_strlit("degree");
            reveal_strlit("inf");
            reveal_strlit("infinity");
            reveal_strlit("nan");
        }
        let mut values: Vec<(String, Number)> = Vec::new();
        values.push((String::from_str("pi"), Number::from_bits(PI_BITS)));
        values.push((String::from_str("π"), Number::from_bits(PI_BITS)));
        values.push((String::from_str("e"), Number::from_bits(E_BITS)));
        values.push((String::from_str("euler"), Number::from_bits(E_BITS)));
        values.push((String::from_str("deg"), Number::from_bits(DEGREE_BITS)));
        values.push((String::from_str("degree"), Number::from_bits(DEGREE_BITS)));
        values.push((String::from_str("inf"), Number::from_bits(INF_BITS)));
        values.push((String::from_str("infinity"), Number::from_bits(INF_BITS)));
        values.push((String::from_str("nan"), Number::from_bits(NAN_BITS)));
        proof {
            let t = constant_table();
            let e = entries_of(values@);
            assert(e.len() == t.len());
            assert(e[0].0 =~= t[0].0);
            assert(e[1].0 =~= t[1].0);
            assert(e[2].0 =~= t[2].0);
            assert(e[3].0 =~= t[3].0);
            assert(e[4].0 =~= t[4].0);
            assert(e[5].0 =~= t[5].0);
            assert(e[6].0 =~= t[6].0);
            assert(e[7].0 =~= t[7].0);
            assert(e[8].0 =~= t[8].0);
            assert(e =~= t);
        }
        Constants { values }
    }

    /// The value of the constant called `name`.
    pub fn get(&self, name: &str) -> (r: Option<Number>)
        ensures
            r == constant_value(name@),
    {
        proof {
            use_type_invariant(self);
        }
        let wanted = String::from_str(name);
        let mut i: usize = 0;
        while i < self.values.len()
            invariant
                i <= self.values.len(),
                entries_of(self.values@) == constant_table(),
                wanted@ == name@,
                constant_value(name@) == find_name(constant_table(), name@, i as int),
            decreases self.values.len() - i,
        {
            proof {
                assert(entries_of(self.values@)[i as int] == (self.values@[i as int].0@, self.values@[i as int].1));
            }
            if self.values[i].0 == wanted {
                return Some(self.values[i].1);
            }
            i += 1;
        }
        None
    }

    /// Whether `name` is the name of a constant.
    pub fn is_constant(&self, name: &str) -> (r: bool)
        ensures
            r == constant_value(name@).is_some(),
    {
        self.get(name).is_some()
    }

    /// The first name in the table whose value is close to `value`.
    pub fn name_of(&self, value: Number) -> (r: Option<String>)
        ensures
            match constant_name(value) {
                Some(name) => r is Some && r->Some_0@ == name,
                None => r is None,
            },
    {
        proof {
            use_type_invariant(self);
        }
        let mut i: usize = 0;
        while i < self.values.len()
            invariant
                i <= self.values.len(),
                entries_of(self.values@) == constant_table(),
                constant_name(value) == find_value(constant_table(), value, i as int),
            decreases self.values.len() - i,
        {
            proof {
                assert(entries_of(self.values@)[i as int] == (self.values@[i as int].0@, self.values@[i as int].1));
            }
            let distance = value.minus(self.values[i].1);
            if check_below_epsilon(distance) {
                return Some(self.values[i].0.clone());
            }
            i += 1;
        }
        None
    }
}

fn check_below_epsilon(distance: Number) -> (r: bool)
    ensures
        r == (distance.magnitude() < EPSILON_BITS),
{
    if distance.to_bits() >= SIGN_BIT {
        distance.to_bits() - SIGN_BIT < EPSILON_BITS
    } else {
        distance.to_bits() < EPSILON_BITS
    }
}

/// The value of the constant called `name`.
pub fn get_constant(name: &str) -> (r: Option<Number>)
    ensures
        r == constant_value(name@),
{
    Constants::new().get(name)
}

/// Whether `name` is the name of a constant: one of `pi`, `π`, `e`, `euler`,
/// `deg`, `degree`, `inf`, `infinity` and `nan`.
pub fn is_constant(name: &str) -> (r: bool)
    ensures
        r == constant_value(name@).is_some(),
{
    Constants::new().is_constant(name)
}

/// The name of a constant whose value is within `2^-52` of `value`: the first
/// such name in the table.
pub fn value_to_constant_name(value: Number) -> (r: Option<String>)
    ensures
        match constant_name(value) {
            Some(name) => r is Some && r->Some_0@ == name,
            None => r is None,
        },
{
    Constants::new().name_of(value)
}

} // verus!
