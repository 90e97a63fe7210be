//! Service configuration.  Reading the environment happens outside the
//! library; the parsing of the raw option values into numbers is verified
//! here, exactly: a value parses if and only if it is a non-empty string of
//! decimal digits whose value fits the target type.

use vstd::prelude::*;

verus! {

/// A width and a height.
#[derive(Debug, Clone, Copy, PartialEq, Eq, Structural)]
pub struct Size<T> {
    pub width: T,
    pub height: T,
}

/// The service's configuration.
#[derive(Debug, Clone)]
pub struct Settings {
    pub address: String,
    pub port: u16,
    pub image_max_bytes: usize,
    pub image_min_size: Size<u32>,
    pub image_max_size: Size<u32>,
    pub upload_dir: String,
    pub log_level: String,
    pub workers_count: usize,
    pub dmc_palette_path: String,
}

impl Default for Settings {
    /// The built-in configuration: loopback, an ephemeral port, a 4 MiB
    /// body cap, dimensions between 100 and 5000, two workers.
    fn default() -> (s: Settings)
        ensures
            s.address@ == "127.0.0.1"@,
            s.port == 0,
            s.image_max_bytes == 4096 * 1024,
            s.image_min_size == (Size { width: 100u32, height: 100u32 }),
            s.image_max_size == (Size { width: 5000u32, height: 5000u32 }),
            s.upload_dir@ == "./tmpsf"@,
            s.log_level@ == "info"@,
            s.workers_count == 2,
            s.dmc_palette_path@ == "./res/palette_dmc_full.json"@,
    {
        Settings {
            address: String::from_str("127.0.0.1"),
            port: 0,
            image_max_bytes: 4096 * 1024,
            image_min_size: Size { width: 100, height: 100 },
            image_max_size: Size { width: 5000, height: 5000 },
            upload_dir: String::from_str("./tmpsf"),
            log_level: String::from_str("info"),
            workers_count: 2,
            dmc_palette_path: String::from_str("./res/palette_dmc_full.json"),
        }
    }
}

/// A decimal digit.
pub open spec fn spec_is_dec_digit(c: char) -> bool {
    '0' <= c && c <= '9'
}

/// Every character is a decimal digit.
pub open spec fn spec_all_dec_digits(s: Seq<char>) -> bool {
    forall|i: int| 0 <= i < s.len() ==> spec_is_dec_digit(#[trigger] s[i])
}

/// The number a string of decimal digits denotes.
pub open spec fn spec_dec_val(s: Seq<char>) -> int
    decreases s.len(),
{
    if s.len() == 0 {
        0
    } else {
        spec_dec_val(s.drop_last()) * 10 + (s.last() as int - '0' as int)
    }
}

/// A digit string denotes a non-negative number.
proof fn lemma_dec_val_nonneg(s: Seq<char>)
    requires
        spec_all_dec_digits(s),
    ensures
        spec_dec_val(s) >= 0,
    decreases s.len(),
{
    if s.len() > 0 {
        assert(spec_all_dec_digits(s.drop_last()));
        lemma_dec_val_nonneg(s.drop_last());
        let v = spec_dec_val(s.drop_last());
        assert(v * 10 >= v) by (nonlinear_arith)
            requires
                v >= 0,
        ;
    }
}

/// Extending a digit string never shrinks its value.
proof fn lemma_dec_val_prefix_le(s: Seq<char>, k: int)
    requires
        spec_all_dec_digits(s),
        0 <= k <= s.len(),
    ensures
        spec_dec_val(s.take(k)) <= spec_dec_val(s),
    decreases s.len() - k,
{
    if k < s.len() {
        lemma_dec_val_prefix_le(s, k + 1);
        let t = s.take(k + 1);
        assert(t.drop_last() =~= s.take(k));
        assert(spec_all_dec_digits(s.take(k)));
        lemma_dec_val_nonneg(s.take(k));
        let v = spec_dec_val(s.take(k));
        assert(v * 10 >= v) by (nonlinear_arith)
            requires
                v >= 0,
        ;
        assert(spec_dec_val(t) >= v);
    } else {
        assert(s.take(k) =~= s);
    }
}

/// Parse a decimal option value into a number no larger than `max`.
/// Succeeds exactly on non-empty all-digit strings whose value fits.
fn parse_dec_bounded(value: &str, max: u64) -> (r: Option<u64>)
    requires
        max <= 0xFFFF_FFFF,
    ensures
        r is Some <==> value@.len() > 0 && spec_all_dec_digits(value@) && spec_dec_val(value@)
            <= max,
        r matches Some(v) ==> v == spec_dec_val(value@),
{
    let n = value.unicode_len();
    if n == 0 {
        return None;
    }
    let mut acc: u64 = 0;
    let mut i: usize = 0;
    proof {
        assert(value@.take(0) =~= Seq::<char>::empty());
    }
    while i < n
        invariant
            i <= n,
            n == value@.len(),
            max <= 0xFFFF_FFFF,
            acc <= max,
            spec_all_dec_digits(value@.take(i as int)),
            acc == spec_dec_val(value@.take(i as int)),
        decreases n - i,
    {
        let c = value.get_char(i);
        let cv = c as u32;
        proof {
            assert(value@.take(i + 1).drop_last() =~= value@.take(i as int));
            assert(value@.take(i + 1).last() == value@[i as int]);
        }
        if cv < 48 || cv > 57 {
            return None;
        }
        let d = (cv - 48) as u64;
        let next = acc * 10 + d;
        if next > max {
            proof {
                assert(spec_all_dec_digits(value@.take(i + 1)));
                assert(spec_dec_val(value@.take(i + 1)) == next);
                if spec_all_dec_digits(value@) {
                    lemma_dec_val_prefix_le(value@, i + 1);
                }
            }
            return None;
        }
        acc = next;
        i = i + 1;
    }
    proof {
        assert(value@.take(n as int) =~= value@);
    }
    Some(acc)
}

/// Parse a 16-bit option value; exactly the non-empty all-digit strings up
/// to 65535 are accepted.
pub fn parse_setting_u16(value: &str) -> (r: Option<u16>)
    ensures
        r is Some <==> value@.len() > 0 && spec_all_dec_digits(value@) && spec_dec_val(value@)
            <= u16::MAX,
        r matches Some(v) ==> v == spec_dec_val(value@),
{
    match parse_dec_bounded(value, 65535) {
        Some(v) => Some(v as u16),
        None => None,
    }
}

/// Parse a 32-bit option value; exactly the non-empty all-digit strings up
/// to 4294967295 are accepted.
pub fn parse_setting_u32(value: &str) -> (r: Option<u32>)
    ensures
        r is Some <==> value@.len() > 0 && spec_all_dec_digits(value@) && spec_dec_val(value@)
            <= u32::MAX,
        r matches Some(v) ==> v == spec_dec_val(value@),
{
    match parse_dec_bounded(value, 0xFFFF_FFFF) {
        Some(v) => Some(v as u32),
        None => None,
    }
}

} // verus!
