//! Directory names: `<owning pid>-<8 hex>`.
//!
//! The pid is that of the process that creates the directory, not of the agent
//! it is created for: the directory comes first, so the agent has no pid yet.
//! It is what lets a later sweep tell "some other process owns this" from "its
//! owner is gone".

use vstd::prelude::*;

use crate::text;

verus! {

/// How many characters of randomness a name carries.
pub const SUFFIX_LEN: usize = 8;

/// The name of a directory owned by `pid`, with the given suffix.
pub open spec fn dir_name_text(pid: u32, suffix: Seq<char>) -> Seq<char> {
    text::decimal(pid as nat) + seq!['-'] + suffix
}

/// The shape of the suffixes that [`new_dir_name`] draws.
pub open spec fn is_suffix(s: Seq<char>) -> bool {
    s.len() == SUFFIX_LEN && text::all_lower_hex_digits(s)
}

/// A name that [`new_dir_name`] can give to a directory of `pid`.
pub open spec fn is_minted_for(name: Seq<char>, pid: u32) -> bool {
    exists|suffix: Seq<char>| is_suffix(suffix) && name == #[trigger] dir_name_text(pid, suffix)
}

/// The pid that a name carries: the number whose decimal form stands before a
/// dash and eight hexadecimal digits. `None` for any other shape.
pub open spec fn owner_pid(name: Seq<char>) -> Option<u32> {
    let dash = name.len() - SUFFIX_LEN - 1;
    if dash >= 0 && name[dash] == '-' && text::all_hex_digits(name.skip(dash + 1)) {
        text::u32_of_text(name.take(dash))
    } else {
        None
    }
}

/// Draws a random version 4 UUID with `uuid::Uuid::new_v4` and writes it with
/// the `Display` of `uuid::Uuid::simple`.
///
/// Claimed of every draw: the text is 32 lower-case hexadecimal digits, with
/// the version and the variant where RFC 9562 puts them. Which of these texts
/// comes back is chance. The call panics where the operating system has no
/// random bytes to give.
#[verifier::external_body]
fn random_uuid_text() -> (text: String)
    ensures
        text@.len() == 32,
        text::all_lower_hex_digits(text@),
        text@[12] == '4',
        text@[16] == '8' || text@[16] == '9' || text@[16] == 'a' || text@[16] == 'b',
{
    uuid::Uuid::new_v4().simple().to_string()
}

/// The directory name that `pid` and a random text give: the decimal pid, a
/// dash, and the text's first eight characters.
pub fn dir_name(pid: u32, random: &str) -> (name: String)
    ensures
        random@.len() >= SUFFIX_LEN ==> name@ == dir_name_text(pid, random@.take(SUFFIX_LEN as int)),
        random@.len() < SUFFIX_LEN ==> name@ == dir_name_text(pid, random@),
{
    let len = random.unicode_len();
    let end: usize = if len < SUFFIX_LEN {
        len
    } else {
        SUFFIX_LEN
    };
    let suffix = random.substring_char(0, end);
    proof {
        reveal_strlit("-");
        assert("-"@ =~= seq!['-']);
        assert(random@.subrange(0, end as int) =~= random@.take(end as int));
        if len < SUFFIX_LEN {
            assert(random@.take(end as int) =~= random@);
        }
    }
    text::decimal_text(pid).concat("-").concat(suffix)
}

/// A fresh directory name for a directory of `pid`.
pub fn new_dir_name(pid: u32) -> (name: String)
    ensures
        is_minted_for(name@, pid),
        owner_pid(name@) == Some(pid),
{
    let random = random_uuid_text();
    let name = dir_name(pid, random.as_str());
    proof {
        let suffix = random@.take(SUFFIX_LEN as int);
        assert(is_suffix(suffix));
        assert(name@ == dir_name_text(pid, suffix));
        law_dir_name_round_trips(pid, suffix);
    }
    name
}

/// The inverse of [`new_dir_name`]. `None` for anything of another shape, so
/// that a stray file or a directory some other tool created is skipped rather
/// than deleted.
pub fn pid_from_dir_name(name: &str) -> (pid: Option<u32>)
    ensures
        pid == owner_pid(name@),
{
    let chars = text::chars_of(name);
    let len = chars.len();
    let mut dash: usize = 0;
    while dash < len && chars[dash] != '-'
        invariant
            chars@ == name@,
            len == chars@.len(),
            dash <= len,
            forall|i: int| 0 <= i < dash ==> name@[i] != '-',
        decreases len - dash,
    {
        dash = dash + 1;
    }
    let ghost expected = len - SUFFIX_LEN - 1;
    if dash == len || len - dash - 1 != SUFFIX_LEN {
        proof {
            if expected >= 0 && name@[expected] == '-' {
                assert(dash < expected);
                assert(name@.take(expected)[dash as int] == '-');
            }
        }
        return None;
    }
    let mut i: usize = dash + 1;
    while i < len
        invariant
            chars@ == name@,
            len == chars@.len(),
            len == dash + 1 + SUFFIX_LEN,
            dash + 1 <= i <= len,
            forall|j: int| dash < j < i ==> text::is_hex_digit(#[trigger] name@[j]),
        decreases len - i,
    {
        let c = chars[i];
        let hex = ('0' <= c && c <= '9') || ('a' <= c && c <= 'f') || ('A' <= c && c <= 'F');
        if !hex {
            proof {
                assert(name@.skip(dash + 1)[i - dash - 1] == c);
            }
            return None;
        }
        i = i + 1;
    }
    text::parse_u32(&chars, dash)
}

/// A name gives back the pid it was made from, whatever its suffix.
pub proof fn law_dir_name_round_trips(pid: u32, suffix: Seq<char>)
    requires
        suffix.len() == SUFFIX_LEN,
        text::all_hex_digits(suffix),
    ensures
        owner_pid(dir_name_text(pid, suffix)) == Some(pid),
{
    let number = text::decimal(pid as nat);
    let name = dir_name_text(pid, suffix);
    let dash = name.len() - SUFFIX_LEN - 1;
    text::lemma_decimal_value(pid as nat);
    assert(text::is_digit(number[0]));
    assert(name.take(dash) =~= number);
    assert(name.skip(dash + 1) =~= suffix);
}

/// Two launches share a name only if they share the owner and the suffix.
pub proof fn law_names_identify_owner_and_suffix(
    pid1: u32,
    suffix1: Seq<char>,
    pid2: u32,
    suffix2: Seq<char>,
)
    requires
        is_suffix(suffix1),
        is_suffix(suffix2),
        dir_name_text(pid1, suffix1) == dir_name_text(pid2, suffix2),
    ensures
        pid1 == pid2,
        suffix1 == suffix2,
{
    law_dir_name_round_trips(pid1, suffix1);
    law_dir_name_round_trips(pid2, suffix2);
    let name = dir_name_text(pid1, suffix1);
    let dash = name.len() - SUFFIX_LEN - 1;
    assert(name.skip(dash + 1) =~= suffix1);
    assert(name.skip(dash + 1) =~= suffix2);
}

/// The names that yield a pid are exactly those of the shape: the pid's decimal
/// form, a dash, and eight hexadecimal digits of either case.
pub proof fn law_pid_parser_inverts_dir_names(name: Seq<char>, pid: u32)
    ensures
        owner_pid(name) == Some(pid) <==> exists|suffix: Seq<char>|
            suffix.len() == SUFFIX_LEN && text::all_hex_digits(suffix) && name
                == #[trigger] dir_name_text(pid, suffix),
{
    if owner_pid(name) == Some(pid) {
        let dash = name.len() - SUFFIX_LEN - 1;
        let suffix = name.skip(dash + 1);
        text::lemma_digits_are_decimal(name.take(dash));
        assert(name =~= dir_name_text(pid, suffix));
    }
    if exists|suffix: Seq<char>|
        suffix.len() == SUFFIX_LEN && text::all_hex_digits(suffix) && name
            == #[trigger] dir_name_text(pid, suffix) {
        let suffix = choose|suffix: Seq<char>|
            suffix.len() == SUFFIX_LEN && text::all_hex_digits(suffix) && name
                == #[trigger] dir_name_text(pid, suffix);
        law_dir_name_round_trips(pid, suffix);
    }
}

/// A name that yields a pid was minted for that pid, provided that its suffix is
/// in lower case, as the minting writes it.
pub proof fn law_only_minted_names_yield_a_pid(name: Seq<char>)
    requires
        owner_pid(name) is Some,
        text::all_lower_hex_digits(name.skip(name.len() - SUFFIX_LEN)),
    ensures
        is_minted_for(name, owner_pid(name)->0),
{
    let pid = owner_pid(name)->0;
    law_pid_parser_inverts_dir_names(name, pid);
    let suffix = choose|suffix: Seq<char>|
        suffix.len() == SUFFIX_LEN && text::all_hex_digits(suffix) && name
            == #[trigger] dir_name_text(pid, suffix);
    assert(name.skip(name.len() - SUFFIX_LEN) =~= suffix);
}

/// The pid of a name is read digit by digit: `tail` being a dash and eight
/// hexadecimal digits, a single digit before it is the pid itself, one more digit
/// takes the pid ten times and adds itself, and what would not fit, comes after a
/// zero, or is no digit gives no pid.
pub proof fn law_pids_are_read_digit_by_digit(front: Seq<char>, c: char, tail: Seq<char>)
    requires
        tail.len() == 9,
        tail[0] == '-',
        forall|i: int|
            1 <= i < 9 ==> ('0' <= #[trigger] tail[i] <= '9' || 'a' <= tail[i] <= 'f' || 'A'
                <= tail[i] <= 'F'),
    ensures
        owner_pid(tail) is None,
        owner_pid(seq![c] + tail) == (if '0' <= c <= '9' {
            Some((c as int - '0' as int) as u32)
        } else {
            None
        }),
        front.len() > 0 ==> owner_pid(front.push(c) + tail) == (match owner_pid(front + tail) {
            Some(p) => if p > 0 && '0' <= c <= '9' && p * 10 + (c as int - '0' as int)
                <= 0xffff_ffff {
                Some((p * 10 + (c as int - '0' as int)) as u32)
            } else {
                None
            },
            None => None,
        }),
{
    assert(tail.take(0) =~= Seq::<char>::empty());
    lemma_owner_of_parts(Seq::empty(), tail);
    assert(Seq::<char>::empty() + tail =~= tail);
    lemma_owner_of_parts(seq![c], tail);
    let one = seq![c];
    assert(one.drop_last() =~= Seq::<char>::empty());
    assert(text::digits_value(one.drop_last()) == 0);
    if '0' <= c <= '9' {
        assert(text::all_digits(one));
    } else {
        assert(!text::is_digit(one[0]));
    }
    if front.len() > 0 {
        let longer = front.push(c);
        lemma_owner_of_parts(front, tail);
        lemma_owner_of_parts(longer, tail);
        assert(longer.drop_last() =~= front);
        assert(longer[0] == front[0]);
        if text::all_digits(longer) {
            assert(text::all_digits(front)) by {
                assert forall|i: int| 0 <= i < front.len() implies text::is_digit(
                    #[trigger] front[i],
                ) by {
                    assert(longer[i] == front[i]);
                }
            }
            assert(text::is_digit(longer[longer.len() - 1]));
        }
        if text::all_digits(front) && text::is_digit(c) {
            assert(text::all_digits(longer));
        }
        if text::all_digits(front) && (front[0] == '0' ==> front.len() == 1) {
            text::lemma_digits_are_decimal(front);
            if front[0] == '0' {
                assert(front =~= seq!['0']);
                assert(front.drop_last() =~= Seq::<char>::empty());
                assert(text::digits_value(front.drop_last()) == 0);
                assert(text::digits_value(front) == 0);
            }
        }
    }
}

proof fn lemma_owner_of_parts(front: Seq<char>, tail: Seq<char>)
    requires
        tail.len() == 9,
        tail[0] == '-',
        forall|i: int|
            1 <= i < 9 ==> ('0' <= #[trigger] tail[i] <= '9' || 'a' <= tail[i] <= 'f' || 'A'
                <= tail[i] <= 'F'),
    ensures
        owner_pid(front + tail) == text::u32_of_text(front),
{
    let name = front + tail;
    let dash = name.len() - SUFFIX_LEN - 1;
    assert(name.take(dash) =~= front);
    assert forall|i: int| 0 <= i < 8 implies text::is_hex_digit(
        #[trigger] name.skip(dash + 1)[i],
    ) by {
        assert(name.skip(dash + 1)[i] == tail[i + 1]);
    }
}

/// Whatever yields a pid is digits, a dash, and eight hexadecimal digits.
pub proof fn law_only_names_of_the_shape_yield_a_pid(name: Seq<char>)
    requires
        owner_pid(name) is Some,
    ensures
        name.len() >= 10,
        forall|i: int| 0 <= i < name.len() - 9 ==> '0' <= #[trigger] name[i] <= '9',
        name[name.len() - 9] == '-',
        forall|i: int|
            name.len() - 8 <= i < name.len() ==> ('0' <= #[trigger] name[i] <= '9' || 'a'
                <= name[i] <= 'f' || 'A' <= name[i] <= 'F'),
{
    let dash = name.len() - SUFFIX_LEN - 1;
    assert forall|i: int| 0 <= i < dash implies '0' <= #[trigger] name[i] <= '9' by {
        assert(text::is_digit(name.take(dash)[i]));
    }
    assert forall|i: int| dash < i < name.len() implies ('0' <= #[trigger] name[i] <= '9' || 'a'
        <= name[i] <= 'f' || 'A' <= name[i] <= 'F') by {
        assert(text::is_hex_digit(name.skip(dash + 1)[i - dash - 1]));
    }
}

/// What is read from a name is the pid that it carries, and nothing is read from
/// any other text.
pub proof fn law_the_parser_gives_the_owner(name: &str, pid: Option<u32>)
    requires
        call_ensures(pid_from_dir_name, (name,), pid),
    ensures
        pid == owner_pid(name@),
        pid is Some ==> name@.len() >= 10 && name@[name@.len() - 9] == '-',
{
    if pid is Some {
        law_only_names_of_the_shape_yield_a_pid(name@);
    }
}

/// A name ends in a dash and what is taken of the random text, which is its first
/// eight characters or all there are. What stands before the dash carries the pid:
/// with a dash and any eight hexadecimal digits behind it, it is read back.
pub proof fn law_names_carry_their_pid_and_suffix(
    pid: u32,
    random: &str,
    name: String,
    taken: int,
    tail: Seq<char>,
)
    requires
        call_ensures(dir_name, (pid, random), name),
        taken == (if random@.len() < 8 {
            random@.len() as int
        } else {
            8
        }),
        tail.len() == 9,
        tail[0] == '-',
        forall|i: int|
            1 <= i < 9 ==> ('0' <= #[trigger] tail[i] <= '9' || 'a' <= tail[i] <= 'f' || 'A'
                <= tail[i] <= 'F'),
    ensures
        name@.len() > taken + 1,
        name@[name@.len() - taken - 1] == '-',
        forall|i: int|
            0 <= i < taken ==> name@[name@.len() - taken + i] == #[trigger] random@[i],
        owner_pid(name@.take(name@.len() - taken - 1) + tail) == Some(pid),
{
    let number = text::decimal(pid as nat);
    text::lemma_decimal_value(pid as nat);
    assert(name@.take(name@.len() - taken - 1) =~= number);
    lemma_owner_of_parts(number, tail);
    assert forall|i: int| 0 <= i < taken implies name@[name@.len() - taken + i]
        == #[trigger] random@[i] by {
        assert(random@.take(taken)[i] == random@[i]);
    }
}

/// A minted name has a pid, a dash and eight lower-case hexadecimal digits, and its
/// pid is read back.
pub proof fn law_fresh_names_are_read_back(pid: u32, name: String)
    requires
        call_ensures(new_dir_name, (pid,), name),
    ensures
        owner_pid(name@) == Some(pid),
        name@.len() >= 10,
        name@[name@.len() - 9] == '-',
        forall|i: int|
            name@.len() - 8 <= i < name@.len() ==> ('0' <= #[trigger] name@[i] <= '9' || 'a'
                <= name@[i] <= 'f'),
{
    law_minted_names_are_read_back(name@, pid);
}

/// A name that is minted for a pid has that pid, a dash and eight lower-case
/// hexadecimal digits, and its pid is read back.
pub proof fn law_minted_names_are_read_back(name: Seq<char>, pid: u32)
    requires
        is_minted_for(name, pid),
    ensures
        owner_pid(name) == Some(pid),
        name.len() >= 10,
        name[name.len() - 9] == '-',
        forall|i: int|
            name.len() - 8 <= i < name.len() ==> ('0' <= #[trigger] name[i] <= '9' || 'a'
                <= name[i] <= 'f'),
{
    let suffix = choose|suffix: Seq<char>|
        is_suffix(suffix) && name == #[trigger] dir_name_text(pid, suffix);
    law_dir_name_round_trips(pid, suffix);
    law_only_names_of_the_shape_yield_a_pid(name);
    assert forall|i: int| name.len() - 8 <= i < name.len() implies ('0' <= #[trigger] name[i] <= '9'
        || 'a' <= name[i] <= 'f') by {
        assert(text::is_lower_hex_digit(suffix[i - (name.len() - 8)]));
    }
}

} // verus!
