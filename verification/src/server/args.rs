// SPDX-License-Identifier: Apache-2.0
//! The argv a frontend launches a plugin with.

use vstd::prelude::*;
use vstd::string::*;

use crate::error::Error;
use crate::text;
use crate::text::{debug_string, find_char};

verus! {

pub const USAGE: &'static str = "--device URL --control URL --events URL";

/// The three arguments a frontend passes on argv.
#[derive(Debug, Clone)]
pub struct Args {
    /// URL of the device to drive, e.g. `usb://04b4:8613/2.14` or `demo://0`.
    pub device: String,
    pub control: String,
    pub events: String,
}

/// The flag that an argument names: all of it, or what stands before a `=`.
pub open spec fn flag_of(arg: Seq<char>) -> Seq<char> {
    match text::first_index(arg, '=') {
        Some(i) => arg.take(i as int),
        None => arg,
    }
}

/// The value that an argument carries itself, after a `=`.
pub open spec fn inline_value(arg: Seq<char>) -> Option<Seq<char>> {
    match text::first_index(arg, '=') {
        Some(i) => Some(arg.skip(i as int + 1)),
        None => None,
    }
}

/// The three texts that an argv comes to, starting from what is known already,
/// or the text of the protocol error. A flag that comes twice counts the last
/// time.
pub open spec fn parsed(
    args: Seq<Seq<char>>,
    device: Option<Seq<char>>,
    control: Option<Seq<char>>,
    events: Option<Seq<char>>,
) -> Result<(Seq<char>, Seq<char>, Seq<char>), Seq<char>>
    decreases args.len(),
{
    if args.len() == 0 {
        match (device, control, events) {
            (Some(d), Some(c), Some(e)) => Ok((d, c, e)),
            _ => Err("missing arguments; usage: "@ + USAGE@),
        }
    } else {
        let flag = flag_of(args[0]);
        let inline = inline_value(args[0]);
        let rest = if inline is None && args.len() > 1 {
            args.skip(2)
        } else {
            args.skip(1)
        };
        let value = if inline is None && args.len() > 1 {
            Some(args[1])
        } else {
            inline
        };
        if flag != "--device"@ && flag != "--control"@ && flag != "--events"@ {
            Err("unknown argument "@ + text::debug_text(flag) + "; usage: "@ + USAGE@)
        } else if value is None {
            Err(flag + " needs a value"@)
        } else {
            parsed(
                rest,
                if flag == "--device"@ {
                    value
                } else {
                    device
                },
                if flag == "--control"@ {
                    value
                } else {
                    control
                },
                if flag == "--events"@ {
                    value
                } else {
                    events
                },
            )
        }
    }
}

spec fn slot_text(slot: Option<String>) -> Option<Seq<char>> {
    match slot {
        Some(s) => Some(s@),
        None => None,
    }
}

proof fn lemma_flags_differ()
    ensures
        "--device"@ != "--control"@,
        "--device"@ != "--events"@,
        "--control"@ != "--events"@,
{
    reveal_strlit("--device");
    reveal_strlit("--control");
    reveal_strlit("--events");
    assert("--device"@[2] == 'd');
    assert("--control"@[2] == 'c');
    assert("--events"@[2] == 'e');
}

impl Args {
    /// Accepts both `--flag value` and `--flag=value`.
    pub fn parse(args: Vec<String>) -> (r: Result<Args, Error>)
        ensures
            match parsed(text::texts(args@), None, None, None) {
                Ok((device, control, events)) => r matches Ok(a) && a.device@ == device
                    && a.control@ == control && a.events@ == events,
                Err(fault) => r matches Err(e) && e.is_protocol(fault),
            },
    {
        let ghost all = text::texts(args@);
        let ghost outcome = parsed(all, None, None, None);
        let mut device: Option<String> = None;
        let mut control: Option<String> = None;
        let mut events: Option<String> = None;
        let mut i: usize = 0;
        assert(all.skip(0) =~= all);
        while i < args.len()
            invariant
                i <= args.len(),
                all == text::texts(args@),
                outcome == parsed(all, None, None, None),
                outcome == parsed(
                    all.skip(i as int),
                    slot_text(device),
                    slot_text(control),
                    slot_text(events),
                ),
            decreases args.len() - i,
        {
            let ghost rest = all.skip(i as int);
            let arg = args[i].as_str();
            assert(rest[0] == arg@);
            i = i + 1;
            assert(rest.skip(1) =~= all.skip(i as int));
            let (flag, inline): (String, Option<String>) = match find_char(arg, '=') {
                Some(at) => {
                    let len: usize = arg.unicode_len();
                    let value = arg.substring_char(at + 1, len);
                    assert(value@ =~= arg@.skip(at + 1));
                    let flag = arg.substring_char(0, at);
                    assert(flag@ =~= arg@.take(at as int));
                    (flag.to_owned(), Some(value.to_owned()))
                },
                None => (arg.to_owned(), None),
            };
            assert(flag@ == flag_of(rest[0]));
            assert(slot_text(inline) == inline_value(rest[0]));
            let for_device = flag == "--device".to_owned();
            let for_control = flag == "--control".to_owned();
            let for_events = flag == "--events".to_owned();
            if !for_device && !for_control && !for_events {
                let mut message = "unknown argument ".to_owned();
                message.append(debug_string(flag.as_str()).as_str());
                message.append("; usage: ");
                message.append(USAGE);
                return Err(Error::Protocol(message));
            }
            let value: String = match inline {
                Some(value) => value,
                None => {
                    if i >= args.len() {
                        let mut message = flag;
                        message.append(" needs a value");
                        return Err(Error::Protocol(message));
                    }
                    let value = args[i].clone();
                    assert(rest[1] == value@);
                    i = i + 1;
                    assert(rest.skip(2) =~= all.skip(i as int));
                    value
                },
            };
            proof {
                lemma_flags_differ();
            }
            if for_device {
                device = Some(value);
            } else if for_control {
                control = Some(value);
            } else {
                events = Some(value);
            }
        }
        assert(all.skip(i as int) =~= Seq::<Seq<char>>::empty());
        match (device, control, events) {
            (Some(device), Some(control), Some(events)) => Ok(Args { device, control, events }),
            _ => {
                let mut message = "missing arguments; usage: ".to_owned();
                message.append(USAGE);
                Err(Error::Protocol(message))
            },
        }
    }
}

/// A flag with its value behind it and the same flag with its value inline come
/// to the same, whatever the value.
pub proof fn law_both_notations_agree(
    flag: Seq<char>,
    value: Seq<char>,
    rest: Seq<Seq<char>>,
    device: Option<Seq<char>>,
    control: Option<Seq<char>>,
    events: Option<Seq<char>>,
)
    requires
        !flag.contains('='),
    ensures
        parsed(seq![flag, value] + rest, device, control, events) == parsed(
            seq![flag + seq!['='] + value] + rest,
            device,
            control,
            events,
        ),
{
    let inline = flag + seq!['='] + value;
    lemma_first_index_of_flag(flag, Seq::empty());
    lemma_first_index_of_flag(flag, seq!['='] + value);
    assert(flag + Seq::<char>::empty() =~= flag);
    assert(flag + (seq!['='] + value) =~= inline);
    assert(inline.take(flag.len() as int) =~= flag);
    assert(inline.skip(flag.len() as int + 1) =~= value);
    let spaced = seq![flag, value] + rest;
    assert(spaced[0] == flag && spaced[1] == value);
    assert(spaced.skip(2) =~= rest);
    let joined = seq![inline] + rest;
    assert(joined[0] == inline);
    assert(joined.skip(1) =~= rest);
}

/// The first `=` after a flag without one is the first after the flag.
proof fn lemma_first_index_of_flag(flag: Seq<char>, tail: Seq<char>)
    requires
        !flag.contains('='),
        tail.len() > 0 ==> tail[0] == '=',
    ensures
        text::first_index(flag + tail, '=') == (if tail.len() > 0 {
            Some(flag.len())
        } else {
            None
        }),
    decreases flag.len(),
{
    let whole = flag + tail;
    if flag.len() == 0 {
        assert(whole =~= tail);
    } else {
        assert(flag[0] != '=') by {
            assert(flag.contains(flag[0]));
        }
        let less = flag.drop_first();
        assert forall|c: char| less.contains(c) implies flag.contains(c) by {
            let i = choose|i: int| 0 <= i < less.len() && less[i] == c;
            assert(flag[i + 1] == c);
        }
        lemma_first_index_of_flag(less, tail);
        assert(whole.drop_first() =~= less + tail);
    }
}

/// A flag with its value, in one notation or the other.
pub struct Setting {
    pub flag: Seq<char>,
    pub value: Seq<char>,
    pub inline: bool,
}

/// The three flags there are.
pub open spec fn is_flag(flag: Seq<char>) -> bool {
    flag == "--device"@ || flag == "--control"@ || flag == "--events"@
}

/// Every setting is of a flag that there is.
pub open spec fn are_known(settings: Seq<Setting>) -> bool {
    forall|i: int| 0 <= i < settings.len() ==> is_flag((#[trigger] settings[i]).flag)
}

/// The arguments that make up some settings.
pub open spec fn argv_of(settings: Seq<Setting>) -> Seq<Seq<char>>
    decreases settings.len(),
{
    if settings.len() == 0 {
        Seq::empty()
    } else {
        let first = settings[0];
        let args = if first.inline {
            seq![first.flag + seq!['='] + first.value]
        } else {
            seq![first.flag, first.value]
        };
        args + argv_of(settings.drop_first())
    }
}

/// The value that a flag is given last.
pub open spec fn last_value(settings: Seq<Setting>, flag: Seq<char>) -> Option<Seq<char>>
    decreases settings.len(),
{
    if settings.len() == 0 {
        None
    } else if settings.last().flag == flag {
        Some(settings.last().value)
    } else {
        last_value(settings.drop_last(), flag)
    }
}

/// The value that a flag is given last, or the one it had.
spec fn value_after(
    settings: Seq<Setting>,
    flag: Seq<char>,
    before: Option<Seq<char>>,
) -> Option<Seq<char>> {
    match last_value(settings, flag) {
        Some(value) => Some(value),
        None => before,
    }
}

proof fn lemma_value_after(settings: Seq<Setting>, flag: Seq<char>, before: Option<Seq<char>>)
    requires
        settings.len() > 0,
    ensures
        value_after(settings, flag, before) == value_after(
            settings.drop_first(),
            flag,
            if settings[0].flag == flag {
                Some(settings[0].value)
            } else {
                before
            },
        ),
    decreases settings.len(),
{
    if settings.len() == 1 {
        assert(settings.drop_last() =~= Seq::empty());
        assert(settings.drop_first() =~= Seq::empty());
    } else {
        lemma_value_after(settings.drop_last(), flag, before);
        assert(settings.drop_last().drop_first() =~= settings.drop_first().drop_last());
    }
}

proof fn lemma_flags_hold_no_equals_sign(flag: Seq<char>)
    requires
        is_flag(flag),
    ensures
        !flag.contains('='),
{
    reveal_strlit("--device");
    reveal_strlit("--control");
    reveal_strlit("--events");
}

/// Settings in front of other arguments set what their flags were given last.
proof fn lemma_settings_in_front(
    settings: Seq<Setting>,
    rest: Seq<Seq<char>>,
    device: Option<Seq<char>>,
    control: Option<Seq<char>>,
    events: Option<Seq<char>>,
)
    requires
        are_known(settings),
    ensures
        parsed(argv_of(settings) + rest, device, control, events) == parsed(
            rest,
            value_after(settings, "--device"@, device),
            value_after(settings, "--control"@, control),
            value_after(settings, "--events"@, events),
        ),
    decreases settings.len(),
{
    if settings.len() == 0 {
        assert(argv_of(settings) + rest =~= rest);
    } else {
        let first = settings[0];
        let tail = settings.drop_first();
        assert(is_flag(first.flag));
        assert forall|i: int| 0 <= i < tail.len() implies is_flag((#[trigger] tail[i]).flag) by {
            assert(is_flag(settings[i + 1].flag));
        }
        lemma_flags_hold_no_equals_sign(first.flag);
        lemma_flags_differ();
        lemma_value_after(settings, "--device"@, device);
        lemma_value_after(settings, "--control"@, control);
        lemma_value_after(settings, "--events"@, events);
        let after = argv_of(tail) + rest;
        law_both_notations_agree(first.flag, first.value, after, device, control, events);
        let spaced = seq![first.flag, first.value] + after;
        if first.inline {
            assert(argv_of(settings) + rest =~= seq![first.flag + seq!['='] + first.value]
                + after);
        } else {
            assert(argv_of(settings) + rest =~= spaced);
        }
        lemma_first_index_of_flag(first.flag, Seq::empty());
        assert(first.flag + Seq::<char>::empty() =~= first.flag);
        assert(spaced[0] == first.flag && spaced[1] == first.value);
        assert(spaced.skip(2) =~= after);
        let value = Some(first.value);
        lemma_settings_in_front(
            tail,
            rest,
            if first.flag == "--device"@ {
                value
            } else {
                device
            },
            if first.flag == "--control"@ {
                value
            } else {
                control
            },
            if first.flag == "--events"@ {
                value
            } else {
                events
            },
        );
    }
}

/// Any settings, in any order, in either notation and with any values, come to
/// the value that each flag was given last, and are refused only where a flag was
/// given none.
pub proof fn law_each_flag_counts_the_last_time(settings: Seq<Setting>)
    requires
        are_known(settings),
    ensures
        parsed(argv_of(settings), None, None, None) == (match (
            last_value(settings, "--device"@),
            last_value(settings, "--control"@),
            last_value(settings, "--events"@),
        ) {
            (Some(device), Some(control), Some(events)) => Ok::<
                (Seq<char>, Seq<char>, Seq<char>),
                Seq<char>,
            >((device, control, events)),
            _ => Err(
                "missing arguments; usage: "@ + "--device URL --control URL --events URL"@,
            ),
        }),
{
    lemma_settings_in_front(settings, Seq::empty(), None, None, None);
    assert(argv_of(settings) + Seq::<Seq<char>>::empty() =~= argv_of(settings));
}

/// The order of the flags makes no difference, nor does their notation: where
/// each of the three is given once, each has its own value.
pub proof fn law_order_makes_no_difference(settings: Seq<Setting>, other: Seq<Setting>)
    requires
        are_known(settings),
        are_known(other),
        settings.len() == 3,
        other.len() == 3,
        forall|i: int, j: int|
            0 <= i < j < 3 ==> (#[trigger] settings[i]).flag != (#[trigger] settings[j]).flag,
        forall|i: int, j: int|
            0 <= i < j < 3 ==> (#[trigger] other[i]).flag != (#[trigger] other[j]).flag,
        forall|i: int, j: int|
            0 <= i < 3 && 0 <= j < 3 && (#[trigger] settings[i]).flag == (
            #[trigger] other[j]).flag ==> settings[i].value == other[j].value,
    ensures
        parsed(argv_of(settings), None, None, None) == parsed(argv_of(other), None, None, None),
        parsed(argv_of(settings), None, None, None) matches Ok((device, control, events))
            && forall|i: int|
            #![trigger settings[i]]
            0 <= i < 3 ==> settings[i].value == (if settings[i].flag == "--device"@ {
                device
            } else if settings[i].flag == "--control"@ {
                control
            } else {
                events
            }),
{
    lemma_flags_differ();
    law_each_flag_counts_the_last_time(settings);
    law_each_flag_counts_the_last_time(other);
    lemma_values_of_three(settings);
    lemma_values_of_three(other);
    assert(is_flag(settings[0].flag) && is_flag(settings[1].flag) && is_flag(settings[2].flag));
    assert(is_flag(other[0].flag) && is_flag(other[1].flag) && is_flag(other[2].flag));
    assert(settings[0].flag != settings[1].flag && settings[0].flag != settings[2].flag
        && settings[1].flag != settings[2].flag);
    assert(other[0].flag != other[1].flag && other[0].flag != other[2].flag && other[1].flag
        != other[2].flag);
}

proof fn lemma_values_of_three(settings: Seq<Setting>)
    requires
        settings.len() == 3,
    ensures
        forall|flag: Seq<char>| #[trigger]
            last_value(settings, flag) == (if settings[2].flag == flag {
                Some(settings[2].value)
            } else if settings[1].flag == flag {
                Some(settings[1].value)
            } else if settings[0].flag == flag {
                Some(settings[0].value)
            } else {
                None
            }),
{
    reveal_with_fuel(last_value, 4);
    let two = settings.drop_last();
    let one = two.drop_last();
    assert(two.last() == settings[1]);
    assert(one.last() == settings[0]);
    assert(one.drop_last().len() == 0);
}

/// What is no setting makes the whole argv one to refuse, whatever settings come
/// before it and whatever follows: a flag that there is not, by its name, and a
/// flag that ends the argv without a value.
pub proof fn law_bad_arguments_are_refused(
    settings: Seq<Setting>,
    name: Seq<char>,
    value: Seq<char>,
    rest: Seq<Seq<char>>,
)
    requires
        are_known(settings),
        !name.contains('='),
    ensures
        !is_flag(name) ==> {
            let fault = Err::<(Seq<char>, Seq<char>, Seq<char>), Seq<char>>(
                "unknown argument "@ + text::debug_text(name) + "; usage: "@
                    + "--device URL --control URL --events URL"@,
            );
            &&& parsed(argv_of(settings) + (seq![name] + rest), None, None, None) == fault
            &&& parsed(
                argv_of(settings) + (seq![name + seq!['='] + value] + rest),
                None,
                None,
                None,
            ) == fault
        },
        is_flag(name) ==> parsed(argv_of(settings) + seq![name], None, None, None) == Err::<
            (Seq<char>, Seq<char>, Seq<char>),
            Seq<char>,
        >(name + " needs a value"@),
{
    let inline = name + seq!['='] + value;
    lemma_first_index_of_flag(name, Seq::empty());
    lemma_first_index_of_flag(name, seq!['='] + value);
    assert(name + Seq::<char>::empty() =~= name);
    assert(name + (seq!['='] + value) =~= inline);
    assert(inline.take(name.len() as int) =~= name);
    lemma_settings_in_front(settings, seq![name] + rest, None, None, None);
    lemma_settings_in_front(settings, seq![inline] + rest, None, None, None);
    lemma_settings_in_front(settings, seq![name], None, None, None);
    assert((seq![name] + rest)[0] == name);
    assert((seq![inline] + rest)[0] == inline);
}

} // verus!
