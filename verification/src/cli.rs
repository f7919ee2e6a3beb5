//! The command surface's validation core: raw option strings in, a typed
//! command out, or a typed argument error. The argument framework itself
//! (flag syntax, help text) lives outside the library and hands the raw
//! values over; everything here runs before any file is touched.

use vstd::prelude::*;

verus! {

/// The typed command the pipeline runs.
pub enum CliCommand {
    RENDER { width: u64, output_path: String, num_of_rays: u64, num_of_threads: usize },
    GENERATE,
}

/// A validated invocation: the command and the scene-description path.
pub struct CliConfig {
    pub command: CliCommand,
    pub config_path: String,
}

/// The raw option strings of a `render` invocation, exactly as the argument
/// framework hands them over.
pub enum RawCommand {
    Render { width: String, output_path: String, rays: String, threads: String },
    Generate,
}

/// The raw invocation.
pub struct RawCliArgs {
    pub config_path: String,
    pub command: RawCommand,
}

/// A rejected invocation: a numeric option that does not parse, or a path
/// without its required extension. Surfaced before any stage runs.
pub enum CliError {
    InvalidValue { arg: String, value: String },
    ConfigPathExtension { path: String },
    OutputPathExtension { path: String },
}

/// `s` ends with `suf`.
pub open spec fn ends_with_chars(s: Seq<char>, suf: Seq<char>) -> bool {
    s.len() >= suf.len() && s.subrange(s.len() - suf.len(), s.len() as int) == suf
}

/// The scene-description extension.
pub open spec fn yaml_suffix() -> Seq<char> {
    seq!['.', 'y', 'a', 'm', 'l']
}

/// The output-image extension.
pub open spec fn ppm_suffix() -> Seq<char> {
    seq!['.', 'p', 'p', 'm']
}

/// A decimal digit.
pub open spec fn is_digit_char(c: char) -> bool {
    '0' <= c <= '9'
}

pub open spec fn all_digit_chars(s: Seq<char>) -> bool {
    forall|i: int| 0 <= i < s.len() ==> is_digit_char(#[trigger] s[i])
}

/// The numeric value of a digit string.
pub open spec fn chars_val(s: Seq<char>) -> nat
    decreases s.len(),
{
    if s.len() == 0 {
        0
    } else {
        chars_val(s.drop_last()) * 10 + (s.last() as nat - 48) as nat
    }
}

/// The digits of a numeric option: everything after an optional leading
/// plus sign.
pub open spec fn digits_part(s: Seq<char>) -> Seq<char> {
    if s.len() >= 1 && s[0] == '+' {
        s.drop_first()
    } else {
        s
    }
}

/// What a numeric option means: an optional leading plus sign, then a
/// non-empty digit string whose value fits in `u64` — the grammar of Rust's
/// unsigned integer parsing.
pub open spec fn parse_u64_spec(s: Seq<char>) -> Option<u64> {
    let d = digits_part(s);
    if d.len() >= 1 && all_digit_chars(d) && chars_val(d) <= u64::MAX {
        Option::Some(chars_val(d) as u64)
    } else {
        Option::None
    }
}

/// Like `parse_u64_spec`, bounded by the platform word.
pub open spec fn parse_usize_spec(s: Seq<char>) -> Option<usize> {
    let d = digits_part(s);
    if d.len() >= 1 && all_digit_chars(d) && chars_val(d) <= usize::MAX {
        Option::Some(chars_val(d) as usize)
    } else {
        Option::None
    }
}

/// Whether `s` ends in `.yaml`.
pub fn has_yaml_ext(s: &String) -> (r: bool)
    ensures
        r == ends_with_chars(s@, yaml_suffix()),
{
    let n = s.as_str().unicode_len();
    if n < 5 {
        return false;
    }
    let r = s.as_str().get_char(n - 5) == '.' && s.as_str().get_char(n - 4) == 'y'
        && s.as_str().get_char(n - 3) == 'a' && s.as_str().get_char(n - 2) == 'm'
        && s.as_str().get_char(n - 1) == 'l';
    proof {
        let suf = s@.subrange(s@.len() - 5, s@.len() as int);
        assert(suf.len() == 5);
        if r {
            assert(suf =~= yaml_suffix());
        } else {
            assert(suf != yaml_suffix()) by {
                if suf == yaml_suffix() {
                    assert(suf[0] == '.' && suf[1] == 'y' && suf[2] == 'a' && suf[3] == 'm'
                        && suf[4] == 'l');
                }
            }
        }
    }
    r
}

/// Whether `s` ends in `.ppm`.
pub fn has_ppm_ext(s: &String) -> (r: bool)
    ensures
        r == ends_with_chars(s@, ppm_suffix()),
{
    let n = s.as_str().unicode_len();
    if n < 4 {
        return false;
    }
    let r = s.as_str().get_char(n - 4) == '.' && s.as_str().get_char(n - 3) == 'p'
        && s.as_str().get_char(n - 2) == 'p' && s.as_str().get_char(n - 1) == 'm';
    proof {
        let suf = s@.subrange(s@.len() - 4, s@.len() as int);
        assert(suf.len() == 4);
        if r {
            assert(suf =~= ppm_suffix());
        } else {
            assert(suf != ppm_suffix()) by {
                if suf == ppm_suffix() {
                    assert(suf[0] == '.' && suf[1] == 'p' && suf[2] == 'p' && suf[3] == 'm');
                }
            }
        }
    }
    r
}

/// Parses a decimal `u64` option value: an optional leading plus sign, then
/// digits only.
pub fn parse_u64(s: &String) -> (r: Option<u64>)
    ensures
        r == parse_u64_spec(s@),
{
    let n = s.as_str().unicode_len();
    let start: usize = if n >= 1 && s.as_str().get_char(0) == '+' {
        1
    } else {
        0
    };
    proof {
        assert(digits_part(s@) =~= s@.subrange(start as int, n as int));
    }
    if n == start {
        return Option::None;
    }
    let mut i: usize = start;
    let mut acc: u64 = 0;
    while i < n
        invariant
            n == s@.len(),
            start <= i <= n,
            digits_part(s@) == s@.subrange(start as int, n as int),
            all_digit_chars(s@.subrange(start as int, i as int)),
            acc == chars_val(s@.subrange(start as int, i as int)),
        decreases n - i,
    {
        let c = s.as_str().get_char(i);
        if !('0' <= c && c <= '9') {
            proof {
                assert(digits_part(s@)[i - start] == s@[i as int]);
                assert(!all_digit_chars(digits_part(s@)));
            }
            return Option::None;
        }
        let d: u32 = (c as u32) - 48;
        let wide: u128 = (acc as u128) * 10 + (d as u128);
        proof {
            assert(s@.subrange(start as int, i as int + 1).drop_last() =~= s@.subrange(
                start as int,
                i as int,
            ));
            assert(s@.subrange(start as int, i as int + 1).last() == s@[i as int]);
        }
        if wide > u64::MAX as u128 {
            proof {
                if all_digit_chars(digits_part(s@)) {
                    lemma_chars_val_prefix_le(digits_part(s@), i + 1 - start);
                    assert(digits_part(s@).subrange(0, i + 1 - start) =~= s@.subrange(
                        start as int,
                        i as int + 1,
                    ));
                }
            }
            return Option::None;
        }
        acc = wide as u64;
        i = i + 1;
    }
    Option::Some(acc)
}

/// The value of a digit string only grows as digits are appended.
proof fn lemma_chars_val_prefix_le(s: Seq<char>, k: int)
    requires
        0 <= k <= s.len(),
        all_digit_chars(s),
    ensures
        chars_val(s.subrange(0, k)) <= chars_val(s),
    decreases s.len() - k,
{
    if k < s.len() {
        lemma_chars_val_prefix_le(s, k + 1);
        assert(s.subrange(0, k + 1).drop_last() =~= s.subrange(0, k));
        assert(s.subrange(0, k + 1).last() == s[k]);
    } else {
        assert(s.subrange(0, k) =~= s);
    }
}

/// Parses a decimal `usize` option value.
pub fn parse_usize(s: &String) -> (r: Option<usize>)
    ensures
        r == parse_usize_spec(s@),
{
    match parse_u64(s) {
        Option::None => Option::None,
        Option::Some(v) => {
            if v <= usize::MAX as u64 {
                Option::Some(v as usize)
            } else {
                Option::None
            }
        },
    }
}

/// Validates a raw invocation into a typed one, before any file is touched.
///
/// The scene path must end in `.yaml`; a `render` invocation must carry a
/// numeric width and ray count, a thread count of at least one, and an
/// output path ending in `.ppm`. The first offense, in that order, is reported: the contract pins
/// which error comes back for which input, and that success is owed exactly
/// when nothing offends.
pub fn get_cli_config(raw: RawCliArgs) -> (r: Result<CliConfig, CliError>)
    ensures
        r is Ok <==> (ends_with_chars(raw.config_path@, yaml_suffix()) && match raw.command {
            RawCommand::Generate => true,
            RawCommand::Render { width, output_path, rays, threads } => parse_u64_spec(width@)
                is Some && parse_u64_spec(rays@) is Some && parse_usize_spec(threads@) is Some
                && parse_usize_spec(threads@)->Some_0 >= 1 && ends_with_chars(
                output_path@,
                ppm_suffix(),
            ),
        }),
        match r {
            Result::Ok(cfg) => {
                &&& cfg.config_path@ == raw.config_path@
                &&& match raw.command {
                    RawCommand::Generate => cfg.command is GENERATE,
                    RawCommand::Render { width, output_path, rays, threads } => {
                        &&& cfg.command matches CliCommand::RENDER {
                            width: w,
                            output_path: o,
                            num_of_rays: nr,
                            num_of_threads: nt,
                        } && Option::Some(w) == parse_u64_spec(width@) && o@ == output_path@
                            && Option::Some(nr) == parse_u64_spec(rays@) && Option::Some(nt)
                            == parse_usize_spec(threads@)
                    },
                }
            },
            Result::Err(e) => match e {
                CliError::ConfigPathExtension { path } => {
                    &&& !ends_with_chars(raw.config_path@, yaml_suffix())
                    &&& path@ == raw.config_path@
                },
                CliError::InvalidValue { arg, value } => {
                    &&& ends_with_chars(raw.config_path@, yaml_suffix())
                    &&& raw.command matches RawCommand::Render { width, output_path, rays, threads }
                        && ((arg@ == "width"@ && value@ == width@ && parse_u64_spec(width@)
                        is None) || (arg@ == "rays"@ && value@ == rays@ && parse_u64_spec(width@)
                        is Some && parse_u64_spec(rays@) is None) || (arg@ == "threads"@ && value@
                        == threads@ && parse_u64_spec(width@) is Some && parse_u64_spec(rays@)
                        is Some && (parse_usize_spec(threads@) is None || parse_usize_spec(
                        threads@,
                    )->Some_0 == 0)))
                },
                CliError::OutputPathExtension { path } => {
                    &&& ends_with_chars(raw.config_path@, yaml_suffix())
                    &&& raw.command matches RawCommand::Render { width, output_path, rays, threads }
                        && parse_u64_spec(width@) is Some && parse_u64_spec(rays@) is Some
                        && parse_usize_spec(threads@) is Some && parse_usize_spec(
                        threads@,
                    )->Some_0 >= 1 && !ends_with_chars(
                        output_path@,
                        ppm_suffix(),
                    ) && path@ == output_path@
                },
            },
        },
{
    if !has_yaml_ext(&raw.config_path) {
        return Result::Err(CliError::ConfigPathExtension { path: raw.config_path });
    }
    match raw.command {
        RawCommand::Generate => Result::Ok(
            CliConfig { command: CliCommand::GENERATE, config_path: raw.config_path },
        ),
        RawCommand::Render { width, output_path, rays, threads } => {
            let w = match parse_u64(&width) {
                Option::None => {
                    return Result::Err(
                        CliError::InvalidValue { arg: String::from_str("width"), value: width },
                    );
                },
                Option::Some(v) => v,
            };
            let nr = match parse_u64(&rays) {
                Option::None => {
                    return Result::Err(
                        CliError::InvalidValue { arg: String::from_str("rays"), value: rays },
                    );
                },
                Option::Some(v) => v,
            };
            let nt = match parse_usize(&threads) {
                Option::None => {
                    return Result::Err(
                        CliError::InvalidValue { arg: String::from_str("threads"), value: threads },
                    );
                },
                Option::Some(v) => v,
            };
            if nt < 1 {
                return Result::Err(
                    CliError::InvalidValue { arg: String::from_str("threads"), value: threads },
                );
            }
            if !has_ppm_ext(&output_path) {
                return Result::Err(CliError::OutputPathExtension { path: output_path });
            }
            Result::Ok(
                CliConfig {
                    command: CliCommand::RENDER {
                        width: w,
                        output_path,
                        num_of_rays: nr,
                        num_of_threads: nt,
                    },
                    config_path: raw.config_path,
                },
            )
        },
    }
}

} // verus!
