//! The admission rules of the trusted engine store: the runner's
//! availability limits, engine-root ids, the relative paths the engine
//! browser accepts, content-addressed store names and quotas, browse paging
//! and its cursors, and the browse rate limit.
use vstd::prelude::*;
use crate::keyed::{
    filter_entries, has_key, keys_unique, lemma_filter_entries, lemma_push_new, lemma_remove_at,
    lemma_to_map_all, lemma_update_value, to_map,
};
use crate::order::views;
use crate::hex::{encode_hex, hex_of};
use crate::outside::{base64_url_no_pad, encode_base64_url_no_pad, fill_random_16, fill_random_24};
use crate::text::{chars_of, str_eq, string_from_chars};

verus! {

pub const MAX_RELATIVE_PATH_BYTES: u64 = 4096;

pub const MAX_PATH_DEPTH: usize = 16;

pub const MAX_COMPONENT_BYTES: u64 = 255;

pub const MAX_DIRECTORY_WORK: usize = 4096;

pub const MAX_SERIALIZED_PAGE_BYTES: usize = 262_144;

pub const CURSOR_TTL_MS: u64 = 60_000;

pub const MAX_CURSORS: usize = 128;

pub const MAX_STORE_ENTRIES: usize = 4096;

pub const BROWSE_RATE_WINDOW_MS: u64 = 60_000;

pub const MAX_BROWSES_PER_WINDOW: usize = 120;

/// The resource limits a runner enforces on its commands, engines and
/// stores.
pub struct AvailabilityLimits {
    pub normal_commands: usize,
    pub query_concurrency: usize,
    pub blocking_workers: usize,
    pub simultaneous_engines: usize,
    pub total_engine_memory_mb: u64,
    pub total_engine_cpu_threads: usize,
    pub total_engine_tasks: usize,
    pub engine_output_bytes_per_second: u64,
    pub total_engine_output_bytes_per_second: u64,
    pub engine_output_total_bytes: u64,
    pub engine_log_bytes: u64,
    pub engine_store_bytes: u64,
    pub minimum_free_disk_bytes: u64,
}

/// The limits are within the safe server bounds.
pub open spec fn limits_in_bounds(l: AvailabilityLimits) -> bool {
    &&& 1 <= l.normal_commands <= 256
    &&& 1 <= l.query_concurrency <= 32
    &&& 1 <= l.blocking_workers <= 32
    &&& 1 <= l.simultaneous_engines <= 64
    &&& 256 <= l.total_engine_memory_mb <= 1024 * 1024
    &&& 1 <= l.total_engine_cpu_threads <= 1024
    &&& 1 <= l.total_engine_tasks <= 4096
    &&& 1024 <= l.engine_output_bytes_per_second <= 64 * 1024 * 1024
    &&& 1024 <= l.total_engine_output_bytes_per_second <= 256 * 1024 * 1024
    &&& l.total_engine_output_bytes_per_second >= l.engine_output_bytes_per_second
    &&& 1024 <= l.engine_output_total_bytes <= 4 * 1024 * 1024 * 1024
    &&& 1024 * 1024 <= l.engine_log_bytes <= 64 * 1024 * 1024 * 1024
    &&& 1024 * 1024 <= l.engine_store_bytes <= 1024 * 1024 * 1024 * 1024
    &&& 1024 * 1024 <= l.minimum_free_disk_bytes <= 64 * 1024 * 1024 * 1024
}

impl AvailabilityLimits {
    /// The default limits on a machine with `cpus` logical processors.
    pub fn default(cpus: usize) -> (l: Self)
        ensures
            l.normal_commands == 32,
            l.query_concurrency == 4,
            l.blocking_workers == 4,
            l.simultaneous_engines == if cpus < 1 {
                1
            } else if cpus > 16 {
                16
            } else {
                cpus
            },
            l.total_engine_memory_mb == 16 * 1024,
            l.total_engine_cpu_threads == cpus,
            l.total_engine_tasks == 256,
            l.engine_output_bytes_per_second == 1024 * 1024,
            l.total_engine_output_bytes_per_second == 4 * 1024 * 1024,
            l.engine_output_total_bytes == 64 * 1024 * 1024,
            l.engine_log_bytes == 2 * 1024 * 1024 * 1024,
            l.engine_store_bytes == 8 * 1024 * 1024 * 1024,
            l.minimum_free_disk_bytes == 256 * 1024 * 1024,
    {
        AvailabilityLimits {
            normal_commands: 32,
            query_concurrency: 4,
            blocking_workers: 4,
            simultaneous_engines: if cpus < 1 {
                1
            } else if cpus > 16 {
                16
            } else {
                cpus
            },
            total_engine_memory_mb: 16384,
            total_engine_cpu_threads: cpus,
            total_engine_tasks: 256,
            engine_output_bytes_per_second: 1_048_576,
            total_engine_output_bytes_per_second: 4_194_304,
            engine_output_total_bytes: 67_108_864,
            engine_log_bytes: 2_147_483_648,
            engine_store_bytes: 8_589_934_592,
            minimum_free_disk_bytes: 268_435_456,
        }
    }

    /// Refuses limits outside the safe server bounds.
    pub fn validate(&self) -> (result: Result<(), String>)
        ensures
            limits_in_bounds(*self) <==> result is Ok,
            result matches Err(e) ==> e@
                == "runner-config.json contains an availability limit outside the safe server bounds"@,
    {
        if !(1 <= self.normal_commands && self.normal_commands <= 256) || !(1 <= self.query_concurrency
            && self.query_concurrency <= 32) || !(1 <= self.blocking_workers && self.blocking_workers
            <= 32) || !(1 <= self.simultaneous_engines && self.simultaneous_engines <= 64) || !(256
            <= self.total_engine_memory_mb && self.total_engine_memory_mb <= 1_048_576) || !(1
            <= self.total_engine_cpu_threads && self.total_engine_cpu_threads <= 1024) || !(1
            <= self.total_engine_tasks && self.total_engine_tasks <= 4096) || !(1024
            <= self.engine_output_bytes_per_second && self.engine_output_bytes_per_second
            <= 67_108_864) || !(1024 <= self.total_engine_output_bytes_per_second
            && self.total_engine_output_bytes_per_second <= 268_435_456)
            || self.total_engine_output_bytes_per_second < self.engine_output_bytes_per_second
            || !(1024 <= self.engine_output_total_bytes && self.engine_output_total_bytes
            <= 4_294_967_296) || !(1_048_576 <= self.engine_log_bytes && self.engine_log_bytes
            <= 68_719_476_736) || !(1_048_576 <= self.engine_store_bytes && self.engine_store_bytes
            <= 1_099_511_627_776) || !(1_048_576 <= self.minimum_free_disk_bytes
            && self.minimum_free_disk_bytes <= 68_719_476_736) {
            return Err(
                String::from_str(
                    "runner-config.json contains an availability limit outside the safe server bounds",
                ),
            );
        }
        Ok(())
    }
}

pub open spec fn id_char(c: char) -> bool {
    ('a' <= c && c <= 'z') || ('A' <= c && c <= 'Z') || ('0' <= c && c <= '9') || c == '-' || c
        == '_'
}

/// An engine-root id: 1 to 64 ASCII letters, digits, `-` or `_`.
pub open spec fn valid_root_id(id: Seq<char>) -> bool {
    1 <= id.len() <= 64 && forall|i: int| 0 <= i < id.len() ==> id_char(#[trigger] id[i])
}

/// Refuses an engine-root id that is not 1 to 64 ASCII letters, digits,
/// `-` or `_`.
pub fn validate_root_id(id: &str) -> (result: Result<(), String>)
    ensures
        valid_root_id(id@) <==> result is Ok,
        result matches Err(e) ==> e@ == "Engine root ids must use 1-64 ASCII letters, digits, '-' or '_'"@,
{
    let n = id.unicode_len();
    let mut ok = 1 <= n && n <= 64;
    let mut i: usize = 0;
    while i < n
        invariant
            n == id@.len(),
            i <= n,
            ok == (1 <= n <= 64 && forall|j: int| 0 <= j < i ==> id_char(#[trigger] id@[j])),
        decreases n - i,
    {
        let c = id.get_char(i);
        if !(('a' <= c && c <= 'z') || ('A' <= c && c <= 'Z') || ('0' <= c && c <= '9') || c == '-'
            || c == '_') {
            ok = false;
        }
        proof {
            if !ok {
                assert(!(1 <= n <= 64 && forall|j: int| 0 <= j < i + 1 ==> id_char(#[trigger] id@[j])));
            }
        }
        i = i + 1;
    }
    if !ok {
        return Err(String::from_str("Engine root ids must use 1-64 ASCII letters, digits, '-' or '_'"));
    }
    Ok(())
}

/// The UTF-8 width of one character.
pub open spec fn utf8_width(c: char) -> nat {
    if (c as u32) < 0x80 {
        1
    } else if (c as u32) < 0x800 {
        2
    } else if (c as u32) < 0x10000 {
        3
    } else {
        4
    }
}

/// The UTF-8 length of a string in bytes.
pub open spec fn utf8_len(s: Seq<char>) -> nat
    decreases s.len(),
{
    if s.len() == 0 {
        0
    } else {
        utf8_len(s.drop_last()) + utf8_width(s.last())
    }
}

proof fn lemma_utf8_len_bounds(s: Seq<char>)
    ensures
        s.len() <= utf8_len(s) <= 4 * s.len(),
    decreases s.len(),
{
    if s.len() > 0 {
        lemma_utf8_len_bounds(s.drop_last());
    }
}

/// The UTF-8 length of a character sequence, in bytes.
pub fn utf8_length(s: &Vec<char>) -> (n: u64)
    requires
        s@.len() <= 0x1000_0000,
    ensures
        n == utf8_len(s@),
{
    let mut n: u64 = 0;
    let mut i: usize = 0;
    while i < s.len()
        invariant
            s@.len() <= 0x1000_0000,
            i <= s@.len(),
            n == utf8_len(s@.subrange(0, i as int)),
            n <= 4 * i,
        decreases s.len() - i,
    {
        proof {
            assert(s@.subrange(0, i + 1).drop_last() =~= s@.subrange(0, i as int));
            assert(s@.subrange(0, i + 1).last() == s@[i as int]);
        }
        let c = s[i] as u32;
        let w: u64 = if c < 0x80 {
            1
        } else if c < 0x800 {
            2
        } else if c < 0x10000 {
            3
        } else {
            4
        };
        n = n + w;
        i = i + 1;
    }
    proof {
        assert(s@.subrange(0, s@.len() as int) =~= s@);
    }
    n
}

/// The components of a slash-separated path, empty ones included.
pub open spec fn split_slash(s: Seq<char>) -> Seq<Seq<char>>
    decreases s.len(),
{
    if s.len() == 0 {
        seq![Seq::<char>::empty()]
    } else {
        let p = split_slash(s.drop_last());
        if s.last() == '/' {
            p.push(Seq::<char>::empty())
        } else {
            p.update(p.len() - 1, p.last().push(s.last()))
        }
    }
}

proof fn lemma_split_bounds(s: Seq<char>)
    ensures
        split_slash(s).len() >= 1,
        forall|j: int| 0 <= j < split_slash(s).len() ==> (#[trigger] split_slash(s)[j]).len() <= s.len(),
    decreases s.len(),
{
    if s.len() > 0 {
        lemma_split_bounds(s.drop_last());
        let p = split_slash(s.drop_last());
        if s.last() != '/' {
            assert forall|j: int| 0 <= j < split_slash(s).len() implies (#[trigger] split_slash(s)[j]).len()
                <= s.len() by {
                if j == p.len() - 1 {
                    assert(split_slash(s)[j] == p.last().push(s.last()));
                } else {
                    assert(split_slash(s)[j] == p[j]);
                }
            }
        } else {
            assert forall|j: int| 0 <= j < split_slash(s).len() implies (#[trigger] split_slash(s)[j]).len()
                <= s.len() by {
                if j < p.len() {
                    assert(split_slash(s)[j] == p[j]);
                }
            }
        }
    }
}

/// A usable path component: non-empty, not `.` or `..`, at most 255 bytes.
pub open spec fn component_ok(c: Seq<char>) -> bool {
    c.len() > 0 && c != seq!['.'] && c != seq!['.', '.'] && utf8_len(c) <= MAX_COMPONENT_BYTES
}

/// A relative path the engine browser accepts: at most 4096 bytes, not
/// absolute, free of backslashes and NUL, and at most 16 usable components.
pub open spec fn relative_path_ok(s: Seq<char>) -> bool {
    let parts = split_slash(s);
    &&& utf8_len(s) <= MAX_RELATIVE_PATH_BYTES
    &&& s[0] != '/'
    &&& forall|i: int| 0 <= i < s.len() ==> #[trigger] s[i] != '\\' && s[i] != '\0'
    &&& parts.len() <= MAX_PATH_DEPTH
    &&& forall|i: int| 0 <= i < parts.len() ==> component_ok(#[trigger] parts[i])
}

fn component_is_ok(c: &Vec<char>) -> (ok: bool)
    requires
        c@.len() <= 0x1000_0000,
    ensures
        ok == component_ok(c@),
{
    if c.len() == 0 {
        return false;
    }
    if c.len() == 1 && c[0] == '.' {
        proof {
            assert(c@ =~= seq!['.']);
        }
        return false;
    }
    if c.len() == 2 && c[0] == '.' && c[1] == '.' {
        proof {
            assert(c@ =~= seq!['.', '.']);
        }
        return false;
    }
    proof {
        if c@ == seq!['.'] {
            assert(c@[0] == '.');
        }
        if c@ == seq!['.', '.'] {
            assert(c@[0] == '.' && c@[1] == '.');
        }
    }
    utf8_length(c) <= MAX_COMPONENT_BYTES
}

/// Splits a path at its slashes, keeping empty components.
pub fn split_components(chars: &Vec<char>) -> (parts: Vec<String>)
    ensures
        views(parts@) == split_slash(chars@),
{
    let mut parts: Vec<String> = Vec::new();
    let mut current: Vec<char> = Vec::new();
    let mut i: usize = 0;
    proof {
        assert(chars@.subrange(0, 0) =~= Seq::<char>::empty());
        assert(views(parts@).push(current@) =~= seq![Seq::<char>::empty()]);
    }
    while i < chars.len()
        invariant
            i <= chars@.len(),
            views(parts@).push(current@) == split_slash(chars@.subrange(0, i as int)),
        decreases chars.len() - i,
    {
        let c = chars[i];
        let ghost prev = split_slash(chars@.subrange(0, i as int));
        proof {
            assert(chars@.subrange(0, i + 1).drop_last() =~= chars@.subrange(0, i as int));
            assert(chars@.subrange(0, i + 1).last() == c);
        }
        if c == '/' {
            let ghost before = views(parts@);
            parts.push(string_from_chars(&current));
            current = Vec::new();
            proof {
                assert(views(parts@) =~= before.push(prev.last()));
                assert(views(parts@).push(current@) =~= prev.push(Seq::<char>::empty()));
            }
        } else {
            current.push(c);
            proof {
                assert(views(parts@).push(current@) =~= prev.update(prev.len() - 1, prev.last().push(c)));
            }
        }
        i = i + 1;
    }
    proof {
        assert(chars@.subrange(0, chars@.len() as int) =~= chars@);
    }
    let ghost before = views(parts@);
    parts.push(string_from_chars(&current));
    proof {
        assert(views(parts@) =~= before.push(current@));
    }
    parts
}

/// Parses a relative path below an engine root into its components; the
/// empty path is the root itself where `allow_empty` says so.
pub fn parse_relative_path(value: &str, allow_empty: bool) -> (result: Result<Vec<String>, String>)
    ensures
        value@.len() == 0 ==> if allow_empty {
            result matches Ok(v) && v@.len() == 0
        } else {
            result matches Err(e) && e@ == "Select an engine file below the configured root"@
        },
        value@.len() > 0 ==> if relative_path_ok(value@) {
            result matches Ok(v) && views(v@) == split_slash(value@)
        } else {
            result matches Err(e) && e@ == "The engine-browser relative path is invalid"@
        },
{
    let chars = chars_of(value);
    if chars.len() == 0 {
        if allow_empty {
            return Ok(Vec::new());
        } else {
            return Err(String::from_str("Select an engine file below the configured root"));
        }
    }
    let invalid = String::from_str("The engine-browser relative path is invalid");
    if chars.len() > 4096 {
        proof {
            lemma_utf8_len_bounds(chars@);
        }
        return Err(invalid);
    }
    if utf8_length(&chars) > MAX_RELATIVE_PATH_BYTES || chars[0] == '/' {
        return Err(invalid);
    }
    let mut parts: Vec<String> = Vec::new();
    let mut current: Vec<char> = Vec::new();
    let mut i: usize = 0;
    while i < chars.len()
        invariant
            chars@ == value@,
            chars@.len() <= 4096,
            i <= chars@.len(),
            invalid@ == "The engine-browser relative path is invalid"@,
            forall|j: int| 0 <= j < i ==> #[trigger] chars@[j] != '\\' && chars@[j] != '\0',
            views(parts@).push(current@) == split_slash(chars@.subrange(0, i as int)),
            current@.len() <= i,
        decreases chars.len() - i,
    {
        let c = chars[i];
        if c == '\\' || c == '\0' {
            return Err(invalid);
        }
        let ghost prev = split_slash(chars@.subrange(0, i as int));
        proof {
            assert(chars@.subrange(0, i + 1).drop_last() =~= chars@.subrange(0, i as int));
            assert(chars@.subrange(0, i + 1).last() == c);
        }
        if c == '/' {
            let ghost before = views(parts@);
            parts.push(string_from_chars(&current));
            current = Vec::new();
            proof {
                assert(views(parts@) =~= before.push(prev.last()));
                assert(views(parts@).push(current@) =~= prev.push(Seq::<char>::empty()));
            }
        } else {
            let ghost before = current@;
            current.push(c);
            proof {
                assert(views(parts@).push(current@) =~= prev.update(prev.len() - 1, prev.last().push(c)));
            }
        }
        i = i + 1;
    }
    proof {
        assert(chars@.subrange(0, chars@.len() as int) =~= chars@);
    }
    let ghost all = split_slash(value@);
    proof {
        lemma_split_bounds(value@);
    }
    let ghost before = views(parts@);
    parts.push(string_from_chars(&current));
    proof {
        assert(views(parts@) =~= before.push(current@));
    }
    if parts.len() > MAX_PATH_DEPTH {
        return Err(invalid);
    }
    let mut k: usize = 0;
    while k < parts.len()
        invariant
            views(parts@) == all,
            all == split_slash(value@),
            value@.len() > 0,
            k <= parts@.len(),
            invalid@ == "The engine-browser relative path is invalid"@,
            forall|j: int| 0 <= j < k ==> component_ok(#[trigger] all[j]),
            forall|j: int| 0 <= j < all.len() ==> (#[trigger] all[j]).len() <= 4096,
        decreases parts.len() - k,
    {
        let comp = chars_of(parts[k].as_str());
        proof {
            assert(comp@ == all[k as int]);
        }
        if !component_is_ok(&comp) {
            return Err(invalid);
        }
        k = k + 1;
    }
    Ok(parts)
}

pub open spec fn hex_char(c: char) -> bool {
    ('0' <= c && c <= '9') || ('a' <= c && c <= 'f') || ('A' <= c && c <= 'F')
}

/// A content identity in the store: 64 hexadecimal digits.
pub open spec fn store_digest_name(s: Seq<char>) -> bool {
    s.len() == 64 && forall|i: int| 0 <= i < 64 ==> hex_char(#[trigger] s[i])
}

fn all_hex(s: &Vec<char>, from: usize, to: usize) -> (ok: bool)
    requires
        from <= to <= s@.len(),
    ensures
        ok == forall|i: int| from <= i < to ==> hex_char(#[trigger] s@[i]),
{
    let mut i = from;
    while i < to
        invariant
            from <= i <= to,
            to <= s@.len(),
            forall|j: int| from <= j < i ==> hex_char(#[trigger] s@[j]),
        decreases to - i,
    {
        let c = s[i];
        if !(('0' <= c && c <= '9') || ('a' <= c && c <= 'f') || ('A' <= c && c <= 'F')) {
            return false;
        }
        i = i + 1;
    }
    true
}

/// Whether a store entry name is a content identity.
pub fn is_store_digest(name: &str) -> (digest: bool)
    ensures
        digest == store_digest_name(name@),
{
    let chars = chars_of(name);
    chars.len() == 64 && all_hex(&chars, 0, 64)
}

/// A crash temporary of the store: `.`, 32 hexadecimal digits, `.tmp`.
pub open spec fn store_temporary_name(s: Seq<char>) -> bool {
    &&& s.len() == 37
    &&& s[0] == '.'
    &&& forall|i: int| 1 <= i < 33 ==> hex_char(#[trigger] s[i])
    &&& s[33] == '.' && s[34] == 't' && s[35] == 'm' && s[36] == 'p'
}

/// Whether a store entry name is a crash temporary.
pub fn is_store_temporary(name: &str) -> (temporary: bool)
    ensures
        temporary == store_temporary_name(name@),
{
    let chars = chars_of(name);
    chars.len() == 37 && chars[0] == '.' && all_hex(&chars, 1, 33) && chars[33] == '.' && chars[34]
        == 't' && chars[35] == 'm' && chars[36] == 'p'
}

/// A registered engine's file name is a managed content identity: a store
/// digest with lowercase hexadecimal digits.
pub open spec fn managed_identity(s: Seq<char>) -> bool {
    store_digest_name(s) && forall|i: int| 0 <= i < s.len() ==> !('A' <= #[trigger] s[i] && s[i] <= 'Z')
}

/// Checks where a registered engine lives: in the managed store, under a
/// lowercase content identity.
pub fn check_registered_engine(in_store: bool, name: Option<&str>) -> (result: Result<(), String>)
    ensures
        match name {
            None => result matches Err(e) && e@
                == "A registered runner engine is not a managed content identity"@,
            Some(n) => if in_store && managed_identity(n@) {
                result is Ok
            } else {
                result matches Err(e) && e@
                    == "A registered runner engine predates trusted-engine storage; remove it from config and re-register through a configured root"@
            },
        },
{
    let n = match name {
        None => return Err(String::from_str("A registered runner engine is not a managed content identity")),
        Some(n) => n,
    };
    let chars = chars_of(n);
    let mut upper = false;
    let mut i: usize = 0;
    while i < chars.len()
        invariant
            i <= chars@.len(),
            upper == exists|j: int| 0 <= j < i && 'A' <= #[trigger] chars@[j] && chars@[j] <= 'Z',
        decreases chars.len() - i,
    {
        if 'A' <= chars[i] && chars[i] <= 'Z' {
            upper = true;
        }
        i = i + 1;
    }
    if !in_store || !is_store_digest(n) || upper {
        return Err(
            String::from_str(
                "A registered runner engine predates trusted-engine storage; remove it from config and re-register through a configured root",
            ),
        );
    }
    Ok(())
}

/// Store garbage collection removes crash temporaries and content
/// identities no registered engine references.
pub open spec fn gc_removes_name(name: Seq<char>, referenced: Seq<Seq<char>>) -> bool {
    store_temporary_name(name) || (store_digest_name(name) && !referenced.contains(name))
}

/// Whether garbage collection removes a store entry.
pub fn gc_removes(name: &str, referenced: &Vec<String>) -> (removes: bool)
    ensures
        removes == gc_removes_name(name@, views(referenced@)),
{
    if is_store_temporary(name) {
        return true;
    }
    if !is_store_digest(name) {
        return false;
    }
    let mut i: usize = 0;
    while i < referenced.len()
        invariant
            i <= referenced@.len(),
            !store_temporary_name(name@),
            store_digest_name(name@),
            forall|j: int| 0 <= j < i ==> views(referenced@)[j] != name@,
        decreases referenced.len() - i,
    {
        if str_eq(referenced[i].as_str(), name) {
            proof {
                assert(views(referenced@)[i as int] == name@);
                assert(views(referenced@).contains(name@));
            }
            return false;
        }
        i = i + 1;
    }
    true
}

/// A copy into the store must fit the store quota with its temporary.
pub fn check_store_quota(source_size: u64, current_store_bytes: u64, maximum_store_bytes: u64) -> (result:
    Result<(), String>)
    ensures
        (source_size <= if current_store_bytes >= maximum_store_bytes {
            0
        } else {
            maximum_store_bytes - current_store_bytes
        }) <==> result is Ok,
        result matches Err(e) ==> e@
            == "The engine-store temporary and installed byte quota would be exceeded"@,
{
    let room = if current_store_bytes >= maximum_store_bytes {
        0
    } else {
        maximum_store_bytes - current_store_bytes
    };
    if source_size > room {
        return Err(String::from_str("The engine-store temporary and installed byte quota would be exceeded"));
    }
    Ok(())
}

/// A copy into the store must leave the configured free-space reserve.
pub fn check_free_space(available: u64, source_size: u64, minimum_free_disk_bytes: u64) -> (result:
    Result<(), String>)
    ensures
        (available >= if source_size + minimum_free_disk_bytes > u64::MAX {
            u64::MAX as int
        } else {
            source_size + minimum_free_disk_bytes
        }) <==> result is Ok,
        result matches Err(e) ==> e@
            == "The engine store does not have the configured free-space reserve"@,
{
    let needed = if source_size > u64::MAX - minimum_free_disk_bytes {
        u64::MAX
    } else {
        source_size + minimum_free_disk_bytes
    };
    if available < needed {
        return Err(String::from_str("The engine store does not have the configured free-space reserve"));
    }
    Ok(())
}

/// The bytes free to an unprivileged user, from the filesystem's
/// available blocks and fragment size (saturating).
pub fn available_disk_bytes(available_blocks: u64, fragment_size: u64) -> (bytes: u64)
    ensures
        bytes == if available_blocks * fragment_size > u64::MAX {
            u64::MAX as int
        } else {
            available_blocks * fragment_size
        },
{
    match available_blocks.checked_mul(fragment_size) {
        Some(b) => b,
        None => u64::MAX,
    }
}

/// The sum of the store's regular-file sizes, saturating.
pub open spec fn store_bytes(entries: Seq<Option<u64>>) -> int
    decreases entries.len(),
{
    if entries.len() == 0 {
        0
    } else {
        let prev = store_bytes(entries.drop_last());
        let add = match entries.last() {
            Some(len) => len as int,
            None => 0,
        };
        if prev + add > u64::MAX {
            u64::MAX as int
        } else {
            prev + add
        }
    }
}

/// The bytes the store holds, from its entries (`Some` with the size of a
/// regular file, `None` for anything else); a store with more than 4096
/// entries is refused.
pub fn store_usage(entries: &Vec<Option<u64>>) -> (usage: Result<u64, String>)
    ensures
        entries@.len() > MAX_STORE_ENTRIES ==> (usage matches Err(e) && e@
            == "The engine store exceeds its bounded entry quota"@),
        entries@.len() <= MAX_STORE_ENTRIES ==> usage == Ok::<u64, String>(store_bytes(entries@) as u64),
{
    if entries.len() > MAX_STORE_ENTRIES {
        return Err(String::from_str("The engine store exceeds its bounded entry quota"));
    }
    let mut bytes: u64 = 0;
    let mut i: usize = 0;
    while i < entries.len()
        invariant
            i <= entries@.len(),
            bytes == store_bytes(entries@.subrange(0, i as int)),
        decreases entries.len() - i,
    {
        proof {
            assert(entries@.subrange(0, i + 1).drop_last() =~= entries@.subrange(0, i as int));
            assert(entries@.subrange(0, i + 1).last() == entries@[i as int]);
        }
        if let Some(len) = entries[i] {
            bytes = if bytes > u64::MAX - len {
                u64::MAX
            } else {
                bytes + len
            };
        }
        i = i + 1;
    }
    proof {
        assert(entries@.subrange(0, entries@.len() as int) =~= entries@);
    }
    Ok(bytes)
}

/// The page size of a browse: the default when absent; zero or more than
/// the maximum is refused.
pub fn browse_page_size(requested: Option<u16>) -> (size: Result<u16, String>)
    ensures
        ({
            let wanted = match requested {
                Some(n) => n,
                None => crate::protocol::ENGINE_BROWSE_DEFAULT_PAGE_ENTRIES,
            };
            if wanted == 0 || wanted > crate::protocol::ENGINE_BROWSE_MAX_PAGE_ENTRIES {
                size matches Err(e) && e@ == "The requested engine-browser page size is invalid"@
            } else {
                size == Ok::<u16, String>(wanted)
            }
        }),
{
    let wanted = match requested {
        Some(n) => n,
        None => crate::protocol::ENGINE_BROWSE_DEFAULT_PAGE_ENTRIES,
    };
    if wanted == 0 || wanted > crate::protocol::ENGINE_BROWSE_MAX_PAGE_ENTRIES {
        return Err(String::from_str("The requested engine-browser page size is invalid"));
    }
    Ok(wanted)
}

/// Browse admissions older than the window no longer count: the instants
/// at the front of the list that have aged out are dropped.
pub open spec fn drop_expired(stamps: Seq<u64>, now: u64) -> Seq<u64>
    decreases stamps.len(),
{
    if stamps.len() > 0 && now >= stamps[0] && now - stamps[0] >= BROWSE_RATE_WINDOW_MS {
        drop_expired(stamps.drop_first(), now)
    } else {
        stamps
    }
}

/// The instants of recent browse admissions, oldest first.
pub struct BrowseRate {
    pub stamps: Vec<u64>,
}

impl BrowseRate {
    pub fn new() -> (r: Self)
        ensures
            r.stamps@.len() == 0,
    {
        BrowseRate { stamps: Vec::new() }
    }

    /// Records one browse at `now_ms`: aged-out admissions are dropped, and
    /// a full window refuses the browse.
    pub fn admit_browse(&mut self, now_ms: u64) -> (result: Result<(), String>)
        ensures
            ({
                let kept = drop_expired(old(self).stamps@, now_ms);
                if kept.len() >= MAX_BROWSES_PER_WINDOW {
                    &&& result matches Err(e) && e@ == "The engine-browser rate limit was reached"@
                    &&& final(self).stamps@ == kept
                } else {
                    &&& result is Ok
                    &&& final(self).stamps@ == kept.push(now_ms)
                }
            }),
    {
        let ghost start = self.stamps@;
        loop
            invariant
                drop_expired(self.stamps@, now_ms) == drop_expired(start, now_ms),
            ensures
                drop_expired(self.stamps@, now_ms) == drop_expired(start, now_ms),
                drop_expired(self.stamps@, now_ms) == self.stamps@,
            decreases self.stamps@.len(),
        {
            if self.stamps.len() > 0 && now_ms >= self.stamps[0] && now_ms - self.stamps[0]
                >= BROWSE_RATE_WINDOW_MS {
                let ghost before = self.stamps@;
                self.stamps.remove(0);
                proof {
                    assert(self.stamps@ =~= before.drop_first());
                }
            } else {
                break;
            }
        }
        if self.stamps.len() >= MAX_BROWSES_PER_WINDOW {
            return Err(String::from_str("The engine-browser rate limit was reached"));
        }
        self.stamps.push(now_ms);
        Ok(())
    }
}

/// A pagination cursor: which directory it continues and from where, and
/// when it expires.
pub struct CursorEntry {
    pub token: String,
    pub root_id: String,
    pub relative_path: String,
    pub offset: usize,
    pub expires_ms: u64,
}

pub open spec fn cursor_entries(v: Seq<CursorEntry>) -> Seq<(Seq<char>, (Seq<char>, Seq<char>, usize, u64))> {
    v.map_values(|c: CursorEntry| (c.token@, (c.root_id@, c.relative_path@, c.offset, c.expires_ms)))
}

pub open spec fn cursor_live(now: u64) -> spec_fn((Seq<char>, (Seq<char>, Seq<char>, usize, u64))) -> bool {
    |e: (Seq<char>, (Seq<char>, Seq<char>, usize, u64))| e.1.3 > now
}

/// The outstanding cursors of the engine browser, keyed by token.
pub struct CursorTable {
    pub entries: Vec<CursorEntry>,
}

impl CursorTable {
    pub open spec fn wf(self) -> bool {
        keys_unique(cursor_entries(self.entries@))
    }

    pub open spec fn map(self) -> Map<Seq<char>, (Seq<char>, Seq<char>, usize, u64)> {
        to_map(cursor_entries(self.entries@))
    }

    pub fn new() -> (t: Self)
        ensures
            t.wf(),
            t.map() == Map::<Seq<char>, (Seq<char>, Seq<char>, usize, u64)>::empty(),
    {
        let t = CursorTable { entries: Vec::new() };
        proof {
            assert(cursor_entries(t.entries@) =~= Seq::empty());
        }
        t
    }

    /// Drops the cursors that expired by `now_ms`.
    fn retain_live(&mut self, now_ms: u64)
        requires
            old(self).wf(),
        ensures
            final(self).wf(),
            cursor_entries(final(self).entries@) == filter_entries(
                cursor_entries(old(self).entries@),
                cursor_live(now_ms),
            ),
    {
        let ghost before = cursor_entries(self.entries@);
        let ghost p = cursor_live(now_ms);
        let mut kept: Vec<CursorEntry> = Vec::new();
        let mut i: usize = 0;
        while i < self.entries.len()
            invariant
                before == cursor_entries(self.entries@),
                p == cursor_live(now_ms),
                i <= before.len(),
                cursor_entries(kept@) == filter_entries(before.subrange(0, i as int), p),
            decreases before.len() - i,
        {
            proof {
                assert(before.subrange(0, i + 1).drop_last() =~= before.subrange(0, i as int));
                assert(before.subrange(0, i + 1).last() == before[i as int]);
            }
            let e = &self.entries[i];
            if e.expires_ms > now_ms {
                let ghost prev = cursor_entries(kept@);
                kept.push(
                    CursorEntry {
                        token: e.token.clone(),
                        root_id: e.root_id.clone(),
                        relative_path: e.relative_path.clone(),
                        offset: e.offset,
                        expires_ms: e.expires_ms,
                    },
                );
                proof {
                    assert(cursor_entries(kept@) =~= prev.push(before[i as int]));
                }
            }
            i = i + 1;
        }
        proof {
            assert(before.subrange(0, before.len() as int) =~= before);
            lemma_filter_entries(before, p);
        }
        self.entries = kept;
    }

    fn find(&self, token: &str) -> (found: Option<usize>)
        ensures
            match found {
                Some(i) => i < self.entries@.len() && cursor_entries(self.entries@)[i as int].0 == token@,
                None => !has_key(cursor_entries(self.entries@), token@),
            },
    {
        let mut i: usize = 0;
        while i < self.entries.len()
            invariant
                i <= self.entries@.len(),
                forall|j: int| 0 <= j < i ==> cursor_entries(self.entries@)[j].0 != token@,
            decreases self.entries.len() - i,
        {
            if str_eq(self.entries[i].token.as_str(), token) {
                return Some(i);
            }
            i = i + 1;
        }
        None
    }

    /// Resolves where a browse continues. Without a cursor it starts at the
    /// requested directory; a cursor is single-use, and valid only while
    /// live and for the same root and directory.
    pub fn resolve(&mut self, root_id: &str, relative_path: &str, cursor: Option<&str>, now_ms: u64) -> (result:
        Result<(String, String, usize), String>)
        requires
            old(self).wf(),
        ensures
            final(self).wf(),
            cursor is None ==> (result matches Ok(r) && r.0@ == root_id@ && r.1@ == relative_path@
                && r.2 == 0 && final(self).entries@ == old(self).entries@),
            cursor matches Some(c) ==> {
                let live = to_map(
                    filter_entries(cursor_entries(old(self).entries@), cursor_live(now_ms)),
                );
                &&& final(self).map() == live.remove(c@)
                &&& if live.dom().contains(c@) && live[c@].0 == root_id@ && live[c@].1
                    == relative_path@ {
                    result matches Ok(r) && r.0@ == root_id@ && r.1@ == relative_path@ && r.2
                        == live[c@].2
                } else {
                    result matches Err(e) && e@ == "The engine-browser cursor is invalid or expired"@
                }
            },
    {
        let token = match cursor {
            None => return Ok((String::from_str(root_id), String::from_str(relative_path), 0)),
            Some(t) => t,
        };
        let ghost old_entries = cursor_entries(self.entries@);
        self.retain_live(now_ms);
        let ghost live_entries = cursor_entries(self.entries@);
        proof {
            lemma_to_map_all(live_entries);
            lemma_filter_entries(old_entries, cursor_live(now_ms));
        }
        match self.find(token) {
            Some(i) => {
                proof {
                    assert(self.map().dom().contains(live_entries[i as int].0));
                }
                let root_ok = str_eq(self.entries[i].root_id.as_str(), root_id);
                let path_ok = str_eq(self.entries[i].relative_path.as_str(), relative_path);
                let live_ok = self.entries[i].expires_ms > now_ms;
                let offset = self.entries[i].offset;
                self.entries.remove(i);
                proof {
                    assert(cursor_entries(self.entries@) =~= live_entries.remove(i as int));
                    lemma_remove_at(live_entries, i as int);
                }
                if root_ok && path_ok && live_ok {
                    Ok((String::from_str(root_id), String::from_str(relative_path), offset))
                } else {
                    Err(String::from_str("The engine-browser cursor is invalid or expired"))
                }
            },
            None => {
                proof {
                    assert(self.map().remove(token@) =~= self.map());
                }
                Err(String::from_str("The engine-browser cursor is invalid or expired"))
            },
        }
    }

    /// Mints a cursor that continues a directory listing at `offset`. Its
    /// token is 24 random bytes in unpadded URL-safe base64; the rest is
    /// `mint_with_token`.
    pub fn mint(&mut self, root_id: &str, relative_path: &str, offset: usize, now_ms: u64) -> (result:
        Result<String, String>)
        requires
            old(self).wf(),
        ensures
            final(self).wf(),
            (result matches Err(e) && e@ == "The engine-browser cursor could not be created"@
                && final(self).entries@ == old(self).entries@) || exists|bytes: Seq<u8>|
                #![trigger base64_url_no_pad(bytes)]
                bytes.len() == 24 && minted(
                    *old(self),
                    *final(self),
                    base64_url_no_pad(bytes),
                    root_id@,
                    relative_path@,
                    offset,
                    now_ms,
                    result,
                ),
    {
        let mut random: [u8; 24] = [0u8; 24];
        match fill_random_24(&mut random) {
            Ok(()) => {},
            Err(_) => return Err(String::from_str("The engine-browser cursor could not be created")),
        }
        let token = encode_base64_url_no_pad(&random);
        let ghost bytes = random@;
        assert(bytes.len() == 24);
        let result = self.mint_with_token(token, root_id, relative_path, offset, now_ms);
        assert(minted(
            *old(self),
            *self,
            base64_url_no_pad(bytes),
            root_id@,
            relative_path@,
            offset,
            now_ms,
            result,
        ));
        result
    }

    /// Mints the cursor `token` that continues a directory listing at
    /// `offset`: expired cursors are dropped, a table of 128 live cursors
    /// refuses it, and otherwise it lives for a minute.
    pub fn mint_with_token(
        &mut self,
        token: String,
        root_id: &str,
        relative_path: &str,
        offset: usize,
        now_ms: u64,
    ) -> (result: Result<String, String>)
        requires
            old(self).wf(),
        ensures
            final(self).wf(),
            minted(*old(self), *final(self), token@, root_id@, relative_path@, offset, now_ms, result),
    {
        self.retain_live(now_ms);
        let ghost live_entries = cursor_entries(self.entries@);
        proof {
            lemma_to_map_all(live_entries);
            crate::keyed::lemma_to_map_dom_len(live_entries);
        }
        if self.entries.len() >= MAX_CURSORS {
            return Err(String::from_str("The engine-browser cursor quota is full"));
        }
        let expires = if now_ms > u64::MAX - CURSOR_TTL_MS {
            u64::MAX
        } else {
            now_ms + CURSOR_TTL_MS
        };
        let entry = CursorEntry {
            token: token.clone(),
            root_id: String::from_str(root_id),
            relative_path: String::from_str(relative_path),
            offset,
            expires_ms: expires,
        };
        let ghost value = (root_id@, relative_path@, offset, expires);
        match self.find(token.as_str()) {
            Some(i) => {
                self.entries.set(i, entry);
                proof {
                    assert(cursor_entries(self.entries@) =~= live_entries.update(
                        i as int,
                        (live_entries[i as int].0, value),
                    ));
                    lemma_update_value(live_entries, i as int, value);
                }
            },
            None => {
                self.entries.push(entry);
                proof {
                    assert(cursor_entries(self.entries@) =~= live_entries.push((token@, value)));
                    lemma_push_new(live_entries, token@, value);
                }
            },
        }
        Ok(token)
    }
}

/// When a cursor lives until: a minute after it was minted.
pub open spec fn cursor_expiry(now_ms: u64) -> u64 {
    if now_ms > u64::MAX - CURSOR_TTL_MS {
        u64::MAX
    } else {
        (now_ms + CURSOR_TTL_MS) as u64
    }
}

/// What minting the cursor `token` does: the expired cursors are dropped;
/// with 128 live cursors the quota refuses it, and otherwise it joins them.
pub open spec fn minted(
    before: CursorTable,
    after: CursorTable,
    token: Seq<char>,
    root_id: Seq<char>,
    relative_path: Seq<char>,
    offset: usize,
    now_ms: u64,
    result: Result<String, String>,
) -> bool {
    let live = to_map(filter_entries(cursor_entries(before.entries@), cursor_live(now_ms)));
    if live.dom().len() >= MAX_CURSORS {
        &&& result matches Err(e) && e@ == "The engine-browser cursor quota is full"@
        &&& after.map() == live
    } else {
        &&& result matches Ok(t) && t@ == token
        &&& after.map() == live.insert(token, (root_id, relative_path, offset, cursor_expiry(now_ms)))
    }
}

/// A cursor is single use: once a browse has presented it, the table no
/// longer holds it, so no later browse (at any time) finds it live.
pub proof fn law_cursor_single_use(table: CursorTable, token: Seq<char>, later: u64)
    requires
        table.wf(),
        !table.map().dom().contains(token),
    ensures
        !to_map(filter_entries(cursor_entries(table.entries@), cursor_live(later))).dom().contains(
            token,
        ),
{
    lemma_filter_entries(cursor_entries(table.entries@), cursor_live(later));
}

/// A fresh name for a store temporary: 16 bytes from the operating system's
/// CSPRNG in lowercase hexadecimal.
pub fn random_hex() -> (result: Result<String, String>)
    ensures
        match result {
            Ok(name) => exists|bytes: Seq<u8>| bytes.len() == 16 && name@ == hex_of(bytes),
            Err(e) => e@ == "A secure temporary engine name could not be created"@,
        },
{
    let mut bytes: [u8; 16] = [0u8; 16];
    match fill_random_16(&mut bytes) {
        Ok(()) => Ok(encode_hex(&bytes)),
        Err(_) => Err(String::from_str("A secure temporary engine name could not be created")),
    }
}

/// Why an opened engine-browser entry is not trusted, if it is not: it lies
/// on another filesystem than its root, or it is neither owned by root nor
/// by the runner, or it is writable by group or others.
pub open spec fn entry_distrust(
    root_device: Option<u64>,
    device: u64,
    owner: u32,
    runner_uid: u32,
    mode: u32,
) -> Option<Seq<char>> {
    if root_device is Some && root_device != Some(device) {
        Some("The engine-browser does not cross mounted filesystems"@)
    } else if (owner != 0 && owner != runner_uid) || mode & 0o022 != 0 {
        Some("An engine-browser entry is not owned and protected by the runner administrator"@)
    } else {
        None
    }
}

/// Checks the ownership and placement of an opened engine-browser entry.
pub fn check_trusted_entry(root_device: Option<u64>, device: u64, owner: u32, runner_uid: u32, mode: u32) -> (result:
    Result<(), String>)
    ensures
        match entry_distrust(root_device, device, owner, runner_uid, mode) {
            Some(message) => result matches Err(e) && e@ == message,
            None => result is Ok,
        },
{
    if let Some(d) = root_device {
        if d != device {
            return Err(String::from_str("The engine-browser does not cross mounted filesystems"));
        }
    }
    if (owner != 0 && owner != runner_uid) || mode & 0o022 != 0 {
        return Err(
            String::from_str(
                "An engine-browser entry is not owned and protected by the runner administrator",
            ),
        );
    }
    Ok(())
}

/// The modification time of an entry in milliseconds, from its seconds;
/// none before the epoch, saturating far in the future.
pub fn modified_at_ms(seconds: i64) -> (ms: Option<u64>)
    ensures
        seconds < 0 ==> ms is None,
        seconds >= 0 ==> ms == Some(if seconds * 1000 > u64::MAX {
            u64::MAX
        } else {
            (seconds * 1000) as u64
        }),
{
    if seconds < 0 {
        return None;
    }
    let s = seconds as u64;
    Some(
        if s > u64::MAX / 1000 {
            u64::MAX
        } else {
            s * 1000
        },
    )
}

/// How far the enumeration of one directory page has come.
pub struct PageBuilder {
    pub offset: usize,
    pub limit: usize,
    pub scanned: usize,
    pub serialized: usize,
    pub collected: usize,
    pub has_more: bool,
}

/// What to do with the next directory entry.
#[derive(PartialEq, Eq, Structural, Clone, Copy, Debug)]
pub enum EntryStep {
    /// Before the page: skip it.
    Skip,
    /// Read its metadata and offer it with `accept`.
    Collect,
    /// The page is full; more entries exist.
    Full,
}

impl PageBuilder {
    pub open spec fn wf(self) -> bool {
        &&& self.scanned <= MAX_DIRECTORY_WORK
        &&& self.serialized <= MAX_SERIALIZED_PAGE_BYTES
        &&& self.collected <= self.limit
    }

    pub fn new(offset: usize, limit: usize) -> (b: Self)
        ensures
            b.wf(),
            b.offset == offset,
            b.limit == limit,
            b.scanned == 0,
            b.serialized == 0,
            b.collected == 0,
            !b.has_more,
    {
        PageBuilder { offset, limit, scanned: 0, serialized: 0, collected: 0, has_more: false }
    }

    /// Counts one directory entry (other than `.` and `..`). Enumerating
    /// more than 4096 entries is refused; entries before the offset are
    /// skipped; a full page stops with more to come.
    pub fn next_entry(&mut self) -> (step: Result<EntryStep, String>)
        requires
            old(self).wf(),
        ensures
            final(self).wf(),
            final(self).offset == old(self).offset,
            final(self).limit == old(self).limit,
            final(self).serialized == old(self).serialized,
            final(self).collected == old(self).collected,
            old(self).scanned + 1 > MAX_DIRECTORY_WORK ==> (step matches Err(e) && e@
                == "The engine-browser directory exceeds the bounded work limit"@
                && final(self).scanned == old(self).scanned && final(self).has_more == old(
                self,
            ).has_more),
            old(self).scanned + 1 <= MAX_DIRECTORY_WORK ==> final(self).scanned == old(self).scanned
                + 1 && if final(self).scanned <= old(self).offset {
                step == Ok::<EntryStep, String>(EntryStep::Skip) && final(self).has_more == old(
                    self,
                ).has_more
            } else if old(self).collected >= old(self).limit {
                step == Ok::<EntryStep, String>(EntryStep::Full) && final(self).has_more
            } else {
                step == Ok::<EntryStep, String>(EntryStep::Collect) && final(self).has_more == old(
                    self,
                ).has_more
            },
    {
        if self.scanned + 1 > MAX_DIRECTORY_WORK {
            return Err(String::from_str("The engine-browser directory exceeds the bounded work limit"));
        }
        self.scanned = self.scanned + 1;
        if self.scanned <= self.offset {
            return Ok(EntryStep::Skip);
        }
        if self.collected >= self.limit {
            self.has_more = true;
            return Ok(EntryStep::Full);
        }
        Ok(EntryStep::Collect)
    }

    /// Offers an entry of `encoded_len` serialized bytes: it joins the page
    /// unless the page would exceed 256 KiB, which stops it with more to
    /// come.
    pub fn accept(&mut self, encoded_len: usize) -> (taken: bool)
        requires
            old(self).wf(),
            old(self).collected < old(self).limit,
        ensures
            final(self).wf(),
            final(self).offset == old(self).offset,
            final(self).limit == old(self).limit,
            final(self).scanned == old(self).scanned,
            taken == (old(self).serialized + encoded_len <= MAX_SERIALIZED_PAGE_BYTES),
            taken ==> final(self).serialized == old(self).serialized + encoded_len
                && final(self).collected == old(self).collected + 1 && final(self).has_more == old(
                self,
            ).has_more,
            !taken ==> final(self).serialized == old(self).serialized && final(self).collected
                == old(self).collected && final(self).has_more,
    {
        if encoded_len > MAX_SERIALIZED_PAGE_BYTES - self.serialized {
            self.has_more = true;
            return false;
        }
        self.serialized = self.serialized + encoded_len;
        self.collected = self.collected + 1;
        true
    }

    /// Where the next page starts, when more entries exist.
    pub fn next_offset(&self) -> (next: Option<usize>)
        ensures
            self.has_more ==> next == Some(if self.offset + self.collected > usize::MAX {
                usize::MAX
            } else {
                (self.offset + self.collected) as usize
            }),
            !self.has_more ==> next is None,
    {
        if !self.has_more {
            return None;
        }
        Some(
            if self.offset > usize::MAX - self.collected {
                usize::MAX
            } else {
                self.offset + self.collected
            },
        )
    }
}

/// An entry name the browser refuses: longer than 255 bytes.
pub fn check_entry_name(name: &str) -> (result: Result<(), String>)
    requires
        name@.len() <= 0x1000_0000,
    ensures
        utf8_len(name@) <= MAX_COMPONENT_BYTES <==> result is Ok,
        result matches Err(e) ==> e@ == "The engine-browser found an overlong entry name"@,
{
    let chars = chars_of(name);
    if utf8_length(&chars) > MAX_COMPONENT_BYTES {
        return Err(String::from_str("The engine-browser found an overlong entry name"));
    }
    Ok(())
}

/// The relative path of a directory entry: its name below the listed
/// directory's components.
pub fn child_relative_path(components: &Vec<String>, name: &str) -> (path: String)
    ensures
        path@ == if components@.len() == 0 {
            name@
        } else {
            crate::order::joined(views(components@), "/"@) + "/"@ + name@
        },
{
    if components.len() == 0 {
        return String::from_str(name);
    }
    let mut path = crate::order::join_strings(components, "/");
    crate::text::push_str(&mut path, "/");
    crate::text::push_str(&mut path, name);
    path
}

/// The first problem with the engine-root ids of the runner configuration,
/// scanning them in order: an invalid id, or an id seen before.
pub open spec fn root_ids_problem(ids: Seq<Seq<char>>) -> Option<Seq<char>>
    decreases ids.len(),
{
    if ids.len() == 0 {
        None
    } else {
        match root_ids_problem(ids.drop_last()) {
            Some(m) => Some(m),
            None => if !valid_root_id(ids.last()) {
                Some("Engine root ids must use 1-64 ASCII letters, digits, '-' or '_'"@)
            } else if ids.drop_last().contains(ids.last()) {
                Some("runner-config.json contains a duplicate engine root id"@)
            } else {
                None
            },
        }
    }
}

/// Checks the engine roots of the runner configuration: each id valid,
/// no id twice.
pub fn check_root_ids(ids: &Vec<String>) -> (result: Result<(), String>)
    ensures
        result is Ok <==> (forall|i: int| 0 <= i < ids@.len() ==> valid_root_id(#[trigger] ids@[i]@))
            && views(ids@).no_duplicates(),
        match root_ids_problem(views(ids@)) {
            Some(m) => result matches Err(e) && e@ == m,
            None => result is Ok,
        },
{
    let mut i: usize = 0;
    while i < ids.len()
        invariant
            i <= ids@.len(),
            forall|j: int| 0 <= j < i ==> valid_root_id(#[trigger] ids@[j]@),
            views(ids@.subrange(0, i as int)).no_duplicates(),
            root_ids_problem(views(ids@.subrange(0, i as int))) is None,
        decreases ids.len() - i,
    {
        let ghost pre = views(ids@.subrange(0, i as int));
        let ghost post = views(ids@.subrange(0, i + 1));
        proof {
            assert(post.drop_last() =~= pre);
            assert(post.last() == ids@[i as int]@);
            assert(views(ids@).subrange(0, i + 1) =~= post);
        }
        if validate_root_id(ids[i].as_str()).is_err() {
            proof {
                assert(root_ids_problem(post) == Some(
                    "Engine root ids must use 1-64 ASCII letters, digits, '-' or '_'"@,
                ));
                lemma_root_problem_extends(views(ids@), i as int + 1);
            }
            return Err(String::from_str("Engine root ids must use 1-64 ASCII letters, digits, '-' or '_'"));
        }
        let mut j: usize = 0;
        while j < i
            invariant
                j <= i,
                i < ids@.len(),
                forall|k: int| 0 <= k < j ==> ids@[k]@ != ids@[i as int]@,
                valid_root_id(ids@[i as int]@),
                root_ids_problem(views(ids@.subrange(0, i as int))) is None,
            decreases i - j,
        {
            if str_eq(ids[j].as_str(), ids[i].as_str()) {
                proof {
                    let pre = views(ids@.subrange(0, i as int));
                    let post = views(ids@.subrange(0, i + 1));
                    assert(post.drop_last() =~= pre);
                    assert(views(ids@).subrange(0, i + 1) =~= post);
                    assert(pre[j as int] == ids@[j as int]@);
                    assert(post.last() == ids@[i as int]@);
                    assert(pre.contains(post.last()));
                    assert(valid_root_id(post.last()));
                    assert(root_ids_problem(post) == Some("runner-config.json contains a duplicate engine root id"@));
                    lemma_root_problem_extends(views(ids@), i as int + 1);
                }
                return Err(String::from_str("runner-config.json contains a duplicate engine root id"));
            }
            j = j + 1;
        }
        proof {
            assert forall|a: int, b: int| 0 <= a < post.len() && 0 <= b < post.len() && a != b implies post[a]
                != post[b] by {
                if a < i && b < i {
                    assert(post[a] == pre[a] && post[b] == pre[b]);
                } else if a == i {
                    assert(post[b] == ids@[b]@);
                } else {
                    assert(post[a] == ids@[a]@);
                }
            }
            assert(!pre.contains(post.last())) by {
                if pre.contains(post.last()) {
                    let k = choose|k: int| 0 <= k < pre.len() && pre[k] == post.last();
                    assert(pre[k] == ids@[k]@);
                }
            }
        }
        i = i + 1;
    }
    proof {
        assert(ids@.subrange(0, ids@.len() as int) =~= ids@);
    }
    Ok(())
}

/// Once a prefix of the ids has a problem, every longer prefix reports the
/// same one.
proof fn lemma_root_problem_extends(ids: Seq<Seq<char>>, n: int)
    requires
        0 <= n <= ids.len(),
        root_ids_problem(ids.subrange(0, n)) is Some,
    ensures
        root_ids_problem(ids) == root_ids_problem(ids.subrange(0, n)),
    decreases ids.len() - n,
{
    if n < ids.len() {
        let next = ids.subrange(0, n + 1);
        assert(next.drop_last() =~= ids.subrange(0, n));
        lemma_root_problem_extends(ids, n + 1);
    } else {
        assert(ids.subrange(0, n) =~= ids);
    }
}

/// Whether a path is absolute: it starts at the root.
pub open spec fn absolute_path(path: Seq<char>) -> bool {
    path.len() > 0 && path[0] == '/'
}

pub open spec fn asset_not_allowlisted_message() -> Seq<char> {
    "Remote opening books require an administrator-allowlisted asset"@
}

/// What an opening-book request may name: an absolute path whose canonical
/// form is one of the administrator's allowlisted assets. `canonical` is the
/// path's canonical form, `None` when it does not resolve.
pub open spec fn opening_book_asset(
    requested: Seq<char>,
    canonical: Option<Seq<char>>,
    allowlist: Seq<Seq<char>>,
) -> Result<Seq<char>, Seq<char>> {
    if !absolute_path(requested) {
        Err(asset_not_allowlisted_message())
    } else {
        match canonical {
            None => Err("The selected administrator asset is unavailable"@),
            Some(c) => if allowlist.contains(c) {
                Ok(c)
            } else {
                Err(asset_not_allowlisted_message())
            },
        }
    }
}

/// Checks an opening book a remote request names against the allowlist,
/// and gives its canonical path.
pub fn check_opening_book_asset(requested: &str, canonical: Option<String>, allowlist: &Vec<String>) -> (result:
    Result<String, String>)
    ensures
        match (result, opening_book_asset(requested@, crate::game::opt_string(canonical), views(allowlist@))) {
            (Ok(a), Ok(b)) => a@ == b,
            (Err(a), Err(b)) => a@ == b,
            _ => false,
        },
{
    let chars = chars_of(requested);
    if chars.len() == 0 || chars[0] != '/' {
        return Err(String::from_str("Remote opening books require an administrator-allowlisted asset"));
    }
    proof {
        assert(chars@[0] == requested@[0]);
        assert(absolute_path(requested@));
    }
    let c = match canonical {
        Some(c) => c,
        None => {
            return Err(String::from_str("The selected administrator asset is unavailable"));
        },
    };
    let mut i: usize = 0;
    while i < allowlist.len()
        invariant
            i <= allowlist@.len(),
            absolute_path(requested@),
            crate::game::opt_string(canonical) == Some(c@),
            forall|j: int| 0 <= j < i ==> views(allowlist@)[j] != c@,
        decreases allowlist.len() - i,
    {
        if str_eq(allowlist[i].as_str(), c.as_str()) {
            proof {
                assert(views(allowlist@)[i as int] == c@);
                assert(views(allowlist@).contains(c@));
            }
            return Ok(c);
        }
        i = i + 1;
    }
    proof {
        assert(!views(allowlist@).contains(c@)) by {
            if views(allowlist@).contains(c@) {
                let j = choose|j: int| 0 <= j < views(allowlist@).len() && views(allowlist@)[j] == c@;
                assert(views(allowlist@)[j] != c@);
            }
        }
    }
    Err(String::from_str("Remote opening books require an administrator-allowlisted asset"))
}

/// The runner refuses the secure-install engine administration mode, which
/// is reserved until its containment preflight exists.
pub fn check_admin_mode(secure_install: bool) -> (result: Result<(), String>)
    ensures
        secure_install <==> result is Err,
        result matches Err(e) ==> e@
            == "engine_admin=secure-install is reserved until the containment preflight is implemented"@,
{
    if secure_install {
        Err(String::from_str(
            "engine_admin=secure-install is reserved until the containment preflight is implemented",
        ))
    } else {
        Ok(())
    }
}

/// The canonical allowlist of opening-book assets, or the first entry's
/// problem scanning in order: an entry must be absolute and must resolve.
/// `canonical[i]` is entry i's canonical form, `None` when it does not
/// resolve.
pub open spec fn allowlist_outcome(entries: Seq<Seq<char>>, canonical: Seq<Option<Seq<char>>>) -> Result<
    Seq<Seq<char>>,
    Seq<char>,
>
    decreases entries.len(),
{
    if entries.len() == 0 {
        Ok(Seq::empty())
    } else {
        match allowlist_outcome(entries.drop_last(), canonical) {
            Err(m) => Err(m),
            Ok(done) => if !absolute_path(entries.last()) {
                Err("opening_book_allowlist entries must be absolute"@)
            } else {
                match canonical[entries.len() - 1] {
                    None => Err("An opening_book_allowlist entry is unavailable"@),
                    Some(c) => Ok(done.push(c)),
                }
            },
        }
    }
}

proof fn lemma_allowlist_error_extends(entries: Seq<Seq<char>>, canonical: Seq<Option<Seq<char>>>, n: int)
    requires
        0 <= n <= entries.len(),
        allowlist_outcome(entries.subrange(0, n), canonical) is Err,
    ensures
        allowlist_outcome(entries, canonical) == allowlist_outcome(entries.subrange(0, n), canonical),
    decreases entries.len() - n,
{
    if n < entries.len() {
        assert(entries.subrange(0, n + 1).drop_last() =~= entries.subrange(0, n));
        lemma_allowlist_error_extends(entries, canonical, n + 1);
    } else {
        assert(entries.subrange(0, n) =~= entries);
    }
}

pub open spec fn opt_views(s: Seq<Option<String>>) -> Seq<Option<Seq<char>>> {
    s.map_values(|o: Option<String>| crate::game::opt_string(o))
}

/// Checks the administrator's opening-book allowlist and gives its
/// canonical entries.
pub fn check_allowlist(entries: &Vec<String>, canonical: &Vec<Option<String>>) -> (result: Result<
    Vec<String>,
    String,
>)
    requires
        canonical@.len() == entries@.len(),
    ensures
        match (result, allowlist_outcome(views(entries@), opt_views(canonical@))) {
            (Ok(a), Ok(b)) => views(a@) == b,
            (Err(a), Err(b)) => a@ == b,
            _ => false,
        },
{
    let ghost es = views(entries@);
    let ghost cs = opt_views(canonical@);
    let mut out: Vec<String> = Vec::new();
    let mut i: usize = 0;
    proof {
        assert(es.subrange(0, 0) =~= Seq::<Seq<char>>::empty());
        assert(views(out@) =~= Seq::<Seq<char>>::empty());
    }
    while i < entries.len()
        invariant
            es == views(entries@),
            cs == opt_views(canonical@),
            canonical@.len() == entries@.len(),
            i <= entries@.len(),
            allowlist_outcome(es.subrange(0, i as int), cs) == Ok::<Seq<Seq<char>>, Seq<char>>(views(out@)),
        decreases entries.len() - i,
    {
        proof {
            let next = es.subrange(0, i + 1);
            assert(next.drop_last() =~= es.subrange(0, i as int));
            assert(next.last() == entries@[i as int]@);
            assert(cs[i as int] == crate::game::opt_string(canonical@[i as int]));
        }
        let chars = chars_of(entries[i].as_str());
        if chars.len() == 0 || chars[0] != '/' {
            proof {
                if chars@.len() > 0 {
                    assert(chars@[0] == entries@[i as int]@[0]);
                }
                lemma_allowlist_error_extends(es, cs, i + 1);
            }
            return Err(String::from_str("opening_book_allowlist entries must be absolute"));
        }
        proof {
            assert(chars@[0] == entries@[i as int]@[0]);
        }
        match &canonical[i] {
            None => {
                proof {
                    lemma_allowlist_error_extends(es, cs, i + 1);
                }
                return Err(String::from_str("An opening_book_allowlist entry is unavailable"));
            },
            Some(c) => {
                let ghost prev = views(out@);
                out.push(c.clone());
                proof {
                    assert(views(out@) =~= prev.push(c@));
                }
            },
        }
        i = i + 1;
    }
    proof {
        assert(es.subrange(0, es.len() as int) =~= es);
    }
    Ok(out)
}

} // verus!
