//! The proxy setting of the system: the commands that read and write it, and
//! what is kept of it while the tunnel stands.

use crate::text::{
    chars_of, dec, digit_char, digit_value, from_utf8_lossy, is_blank, is_white, law_decimal_round_trip,
    lemma_blank_words, lemma_only_word, lemma_words_parted, lossy_text, parse_digits, parse_number,
    push_dec, read_number, split_words, texts, views, words, NumError,
};
use vstd::prelude::*;

verus! {

/// The registry key of the setting.
pub const SETTINGS_KEY: &'static str = "HKCU\\Software\\Microsoft\\Windows\\CurrentVersion\\Internet Settings";

/// The setting before the tunnel was made.
pub struct ProxyBackup {
    pub enabled: u32,
}

/// The arguments of `reg` that read the setting.
pub open spec fn query_words() -> Seq<Seq<char>> {
    seq!["query"@, SETTINGS_KEY@, "/v"@, "ProxyEnable"@]
}

/// The arguments of `reg` that set it to `value`.
pub open spec fn set_words(value: nat) -> Seq<Seq<char>> {
    seq![
        "add"@,
        SETTINGS_KEY@,
        "/v"@,
        "ProxyEnable"@,
        "/t"@,
        "REG_DWORD"@,
        "/d"@,
        dec(value),
        "/f"@,
    ]
}

/// The arguments of `reg` that read the setting.
pub fn query_args() -> (args: Vec<String>)
    ensures
        texts(args@) == query_words(),
{
    let mut args: Vec<String> = Vec::new();
    args.push("query".to_owned());
    args.push(SETTINGS_KEY.to_owned());
    args.push("/v".to_owned());
    args.push("ProxyEnable".to_owned());
    assert(texts(args@) =~= query_words());
    args
}

/// The arguments of `reg` that set it to `value`.
pub fn set_args(value: u32) -> (args: Vec<String>)
    ensures
        texts(args@) == set_words(value as nat),
{
    let mut number = String::new();
    push_dec(&mut number, value as u64);
    assert(number@ =~= dec(value as nat));
    let mut args: Vec<String> = Vec::new();
    args.push("add".to_owned());
    args.push(SETTINGS_KEY.to_owned());
    args.push("/v".to_owned());
    args.push("ProxyEnable".to_owned());
    args.push("/t".to_owned());
    args.push("REG_DWORD".to_owned());
    args.push("/d".to_owned());
    args.push(number);
    args.push("/f".to_owned());
    assert(texts(args@) =~= set_words(value as nat));
    args
}

/// `s` without any `0x` at its front.
pub open spec fn without_0x(s: Seq<char>) -> Seq<char>
    decreases s.len(),
{
    if s.len() >= 2 && s[0] == '0' && s[1] == 'x' {
        without_0x(s.skip(2))
    } else {
        s
    }
}

/// The setting in the output of `reg`: its last word, in hexadecimal.
pub open spec fn setting_in(output: Seq<char>) -> Option<u32> {
    let all = words(output);
    if all.len() == 0 {
        None
    } else {
        match parse_number(without_0x(all.last()), 16, u32::MAX as nat) {
            Ok(n) => Some(n as u32),
            Err(_) => None,
        }
    }
}

/// The setting in the output of `reg`.
pub fn parse_setting(output: &str) -> (enabled: Option<u32>)
    ensures
        enabled == setting_in(output@),
{
    let chars = chars_of(output);
    let all = split_words(chars.as_slice());
    assert(views(all@).len() == all@.len());
    if all.len() == 0 {
        return None;
    }
    let raw = all[all.len() - 1].as_slice();
    assert(views(all@).last() == raw@);
    let mut at: usize = 0;
    assert(raw@.skip(0) =~= raw@);
    while at < raw.len() && raw.len() - at >= 2 && raw[at] == '0' && raw[at + 1] == 'x'
        invariant
            at <= raw@.len(),
            without_0x(raw@) == without_0x(raw@.skip(at as int)),
        ensures
            at <= raw@.len(),
            without_0x(raw@) == raw@.skip(at as int),
        decreases raw@.len() - at,
    {
        assert(raw@.skip(at as int).skip(2) =~= raw@.skip(at + 2));
        at += 2;
    }
    let digits = vstd::slice::slice_subrange(raw, at, raw.len());
    assert(digits@ =~= raw@.skip(at as int));
    match read_number(digits, 16, 0xffff_ffff) {
        Ok(n) => Some(n as u32),
        Err(_) => None,
    }
}

/// The setting in the bytes that `reg` put out, where it could be run.
pub fn query_proxy_enable(output: Option<&[u8]>) -> (enabled: Option<u32>)
    ensures
        enabled == match output {
            Some(bytes) => setting_in(lossy_text(bytes@)),
            None => None,
        },
{
    match output {
        Some(bytes) => {
            let text = from_utf8_lossy(bytes);
            parse_setting(text.as_str())
        },
        None => None,
    }
}

/// What is kept after the proxy was turned off: the setting that was read
/// before, where an unreadable one counts as off. `status` is whether `reg`
/// succeeded, or why it could not be run.
pub fn disable_system_proxy(before: Option<u32>, status: Result<bool, String>) -> (result: Result<
    ProxyBackup,
    String,
>)
    ensures
        match status {
            Ok(true) => result matches Ok(backup) && backup.enabled == (match before {
                Some(enabled) => enabled,
                None => 0,
            }),
            Ok(false) => result matches Err(e) && e@ == "无法关闭旧系统代理"@,
            Err(error) => result matches Err(e) && e@ == "无法关闭旧系统代理："@ + error@,
        },
{
    let enabled: u32 = match before {
        Some(enabled) => enabled,
        None => 0,
    };
    match status {
        Ok(true) => Ok(ProxyBackup { enabled }),
        Ok(false) => Err("无法关闭旧系统代理".to_owned()),
        Err(error) => {
            let mut message = "无法关闭旧系统代理：".to_owned();
            message.append(error.as_str());
            Err(message)
        },
    }
}

/// The arguments of `reg` that bring back the setting of the backup.
pub fn restore_system_proxy(backup: &ProxyBackup) -> (args: Vec<String>)
    ensures
        texts(args@) == set_words(backup.enabled as nat),
{
    set_args(backup.enabled)
}

// ---------------------------------------------------------------------------
// Laws
// ---------------------------------------------------------------------------

/// The hexadecimal digits of `n`, without leading zeros.
pub open spec fn hex(n: nat) -> Seq<char>
    decreases n,
{
    if n < 16 {
        seq![digit_char(n)]
    } else {
        hex(n / 16).push(digit_char(n % 16))
    }
}

/// The output of `reg` that ends in a setting is read as that setting, whatever
/// stands before it and whatever white space follows.
pub proof fn law_setting_is_read(before: Seq<char>, n: u32, after: Seq<char>)
    requires
        is_blank(after),
    ensures
        setting_in(before + seq![' '] + (seq!['0', 'x'] + hex(n as nat)) + after) == Some(n),
{
    let digits = hex(n as nat);
    let word = seq!['0', 'x'] + digits;
    lemma_hex_reads(n as nat, u32::MAX as nat);
    assert forall|i: int| 0 <= i < word.len() implies !is_white(#[trigger] word[i]) by {
        if i >= 2 {
            assert(word[i] == digits[i - 2]);
        }
    }
    lemma_last_word(before, word, after);
    assert(word.skip(2) =~= digits);
    assert(digits.len() >= 2 ==> digits[1] != 'x');
    assert(without_0x(word) == without_0x(digits));
    assert(without_0x(digits) == digits);
}

/// Hexadecimal digits denote the number they were made from.
proof fn lemma_hex_reads(n: nat, max: nat)
    requires
        n <= max,
    ensures
        parse_digits(hex(n), 16, max) == Ok::<nat, NumError>(n),
        parse_number(hex(n), 16, max) == Ok::<nat, NumError>(n),
        hex(n).len() > 0,
        forall|i: int|
            0 <= i < hex(n).len() ==> '0' <= #[trigger] hex(n)[i] <= '9' || 'a' <= hex(n)[i] <= 'f',
    decreases n,
{
    let s = hex(n);
    let d = n % 16;
    assert(digit_value(digit_char(d), 16) == Some(d));
    if n < 16 {
        assert(s.drop_last() =~= Seq::<char>::empty());
        assert(parse_digits(s.drop_last(), 16, max) == Ok::<nat, NumError>(0));
    } else {
        lemma_hex_reads(n / 16, max);
        assert(s.drop_last() =~= hex(n / 16));
        assert(s.last() == digit_char(d));
        assert forall|i: int| 0 <= i < s.len() implies '0' <= #[trigger] s[i] <= '9' || 'a' <= s[i]
            <= 'f' by {
            if i < hex(n / 16).len() {
                assert(s[i] == hex(n / 16)[i]);
            }
        }
    }
    assert('0' <= s[0] <= '9' || 'a' <= s[0] <= 'f');
}

/// [`set_args`] and [`restore_system_proxy`] write the very value they are given,
/// and change nothing else than the value in their arguments.
pub proof fn law_the_value_is_written(
    value: u32,
    args: Vec<String>,
    backup: ProxyBackup,
    restoring: Vec<String>,
)
    requires
        call_ensures(set_args, (value,), args),
        call_ensures(restore_system_proxy, (&backup,), restoring),
        backup.enabled == value,
    ensures
        args@.len() == 9,
        args@[0]@ == "add"@,
        args@[1]@
            == "HKCU\\Software\\Microsoft\\Windows\\CurrentVersion\\Internet Settings"@,
        args@[2]@ == "/v"@,
        args@[3]@ == "ProxyEnable"@,
        args@[4]@ == "/t"@,
        args@[5]@ == "REG_DWORD"@,
        args@[6]@ == "/d"@,
        parse_number(args@[7]@, 10, u32::MAX as nat) == Ok::<nat, NumError>(value as nat),
        args@[8]@ == "/f"@,
        texts(restoring@) == texts(args@),
{
    law_decimal_round_trip(value as nat, u32::MAX as nat);
    let all = texts(args@);
    assert(all.len() == args@.len());
    assert forall|i: int| 0 <= i < args@.len() implies all[i] == #[trigger] args@[i]@ by {}
    assert(all[7] == args@[7]@);
}

/// [`parse_setting`] reads the last word of the output as a hexadecimal number of
/// 32 bits, without the mark before it, whatever stands before that word.
pub proof fn law_last_word_is_the_setting(
    output: &str,
    enabled: Option<u32>,
    before: Seq<char>,
    digits: Seq<char>,
    after: Seq<char>,
)
    requires
        call_ensures(parse_setting, (output,), enabled),
        output@ == before + seq![' '] + (seq!['0', 'x'] + digits) + after,
        forall|i: int| 0 <= i < digits.len() ==> !is_white(#[trigger] digits[i]),
        !(digits.len() >= 2 && digits[0] == '0' && digits[1] == 'x'),
        forall|i: int| 0 <= i < after.len() ==> is_white(#[trigger] after[i]),
    ensures
        match parse_number(digits, 16, 0xffff_ffff) {
            Ok(n) => enabled == Some(n as u32),
            Err(_) => enabled is None,
        },
{
    let word = seq!['0', 'x'] + digits;
    assert forall|i: int| 0 <= i < word.len() implies !is_white(#[trigger] word[i]) by {
        if i >= 2 {
            assert(word[i] == digits[i - 2]);
        }
    }
    lemma_last_word(before, word, after);
    assert(word.skip(2) =~= digits);
    assert(without_0x(word) == without_0x(digits));
}

/// [`parse_setting`] reads nothing where there is no word.
pub proof fn law_no_word_is_no_setting(output: &str, enabled: Option<u32>)
    requires
        call_ensures(parse_setting, (output,), enabled),
        forall|i: int| 0 <= i < output@.len() ==> is_white(#[trigger] output@[i]),
    ensures
        enabled is None,
{
    lemma_blank_words(output@);
}

/// A word that only white space follows is the last word.
proof fn lemma_last_word(before: Seq<char>, word: Seq<char>, after: Seq<char>)
    requires
        word.len() > 0,
        forall|i: int| 0 <= i < word.len() ==> !is_white(#[trigger] word[i]),
        is_blank(after),
    ensures
        words(before + seq![' '] + word + after) == words(before).push(word),
{
    lemma_only_word(word);
    lemma_words_parted(before, ' ', word);
    if after.len() == 0 {
        assert(before + seq![' '] + word + after =~= before + seq![' '] + word);
    } else {
        let behind = after.skip(1);
        let output = word + seq![after[0]] + behind;
        assert(before + seq![' '] + word + after =~= before + seq![' '] + output);
        assert(is_white(after[0]));
        assert forall|i: int| 0 <= i < behind.len() implies is_white(#[trigger] behind[i]) by {
            assert(behind[i] == after[i + 1]);
        }
        lemma_words_parted(word, after[0], behind);
        lemma_blank_words(behind);
        assert(words(output) =~= seq![word]);
        lemma_words_parted(before, ' ', output);
    }
    assert(words(before) + seq![word] =~= words(before).push(word));
}

/// [`query_proxy_enable`] reads the text of the bytes, and nothing without bytes;
/// and [`disable_system_proxy`] keeps the very setting that was read, or zero.
pub proof fn law_the_setting_is_kept(
    bytes: &[u8],
    output: &str,
    of_text: Option<u32>,
    of_bytes: Option<u32>,
    of_nothing: Option<u32>,
    before: Option<u32>,
    status: Result<bool, String>,
    out: Result<ProxyBackup, String>,
)
    requires
        call_ensures(parse_setting, (output,), of_text),
        output@ == lossy_text(bytes@),
        call_ensures(query_proxy_enable, (Some(bytes),), of_bytes),
        call_ensures(query_proxy_enable, (None::<&[u8]>,), of_nothing),
        call_ensures(disable_system_proxy, (before, status), out),
    ensures
        of_bytes == of_text,
        of_nothing is None,
        status == Ok::<bool, String>(true) ==> (out matches Ok(backup) && backup.enabled == (
        match before {
            Some(enabled) => enabled,
            None => 0,
        })),
        status == Ok::<bool, String>(false) ==> (out matches Err(e) && e@ == "无法关闭旧系统代理"@),
        status matches Err(error) ==> (out matches Err(e) && e@ == "无法关闭旧系统代理："@ + error@),
{
}

} // verus!
