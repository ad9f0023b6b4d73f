//! Provider identifiers: which buckets are merged into the target bucket,
//! and how provider ids are sanitized and derived.

use vstd::prelude::*;
use crate::text::{chars_of, str_eq, trim, trim_bounds};
use crate::json::hex_digit;
use sha2::Digest;
use vstd::string::StringExecFns;

verus! {

/// cc-switch's legacy Codex provider buckets. `openai` and `custom` are
/// current buckets and are never in this list.
pub open spec fn legacy_ids() -> Seq<Seq<char>> {
    seq![
        "ccswitch"@, "aicodemirror"@, "aicoding"@, "aigocode"@, "aihubmix"@,
        "ark_agentplan"@, "bailian"@, "bailing"@, "byteplus"@, "claudecn"@,
        "compshare"@, "compshare_coding"@, "crazyrouter"@, "ctok"@, "cubence"@,
        "deepseek"@, "dmxapi"@, "doubaoseed"@, "eflowcode"@, "kimi"@,
        "lemondata"@, "longcat"@, "micu"@, "minimax"@, "minimax_en"@,
        "modelscope"@, "novita"@, "nvidia"@, "openrouter"@, "packycode"@,
        "patewayai"@, "pipellm"@, "qianfan_coding"@, "relaxycode"@, "rightcode"@,
        "runapi"@, "shengsuanyun"@, "siliconflow"@, "siliconflow_en"@, "sssaicode"@,
        "stepfun"@, "stepfun_en"@, "therouter"@, "xiaomi_mimo"@, "xiaomi_mimo_token_plan"@,
        "zhipu_glm"@, "zhipu_glm_en"@,
    ]
}

pub open spec fn is_legacy(id: Seq<char>) -> bool {
    legacy_ids().contains(id)
}

/// Whether `id` is one of cc-switch's legacy Codex provider buckets.
pub fn is_legacy_provider_id(id: &str) -> (r: bool)
    ensures
        r == is_legacy(id@),
{
    let list: Vec<&str> = vec![
        "ccswitch", "aicodemirror", "aicoding", "aigocode", "aihubmix",
        "ark_agentplan", "bailian", "bailing", "byteplus", "claudecn",
        "compshare", "compshare_coding", "crazyrouter", "ctok", "cubence",
        "deepseek", "dmxapi", "doubaoseed", "eflowcode", "kimi",
        "lemondata", "longcat", "micu", "minimax", "minimax_en",
        "modelscope", "novita", "nvidia", "openrouter", "packycode",
        "patewayai", "pipellm", "qianfan_coding", "relaxycode", "rightcode",
        "runapi", "shengsuanyun", "siliconflow", "siliconflow_en", "sssaicode",
        "stepfun", "stepfun_en", "therouter", "xiaomi_mimo", "xiaomi_mimo_token_plan",
        "zhipu_glm", "zhipu_glm_en",
    ];
    let ghost names = list@.map_values(|s: &str| s@);
    assert(names =~= legacy_ids());
    let mut i: usize = 0;
    while i < list.len()
        invariant
            i <= list.len(),
            names == list@.map_values(|s: &str| s@),
            names == legacy_ids(),
            forall|j: int| 0 <= j < i ==> names[j] != id@,
        decreases list.len() - i,
    {
        if str_eq(list[i], id) {
            assert(names[i as int] == id@);
            return true;
        }
        i = i + 1;
    }
    false
}

pub open spec fn openai_custom_pair(source: Seq<char>, target: Seq<char>) -> bool {
    (source == "openai"@ && target == "custom"@) || (source == "custom"@ && target == "openai"@)
}

/// Whether the two ids are `openai` and `custom`, in either order.
pub fn is_openai_custom_pair(source_provider_id: &str, target_provider_id: &str) -> (r: bool)
    ensures
        r == openai_custom_pair(source_provider_id@, target_provider_id@),
{
    (str_eq(source_provider_id, "openai") && str_eq(target_provider_id, "custom")) || (str_eq(
        source_provider_id,
        "custom",
    ) && str_eq(target_provider_id, "openai"))
}

/// A bucket whose sessions are moved into the target bucket.
pub open spec fn is_sync_source(id: Seq<char>, target: Seq<char>) -> bool {
    id != target && (openai_custom_pair(id, target) || is_legacy(id))
}

/// Whether sessions recorded under `id` are moved into `target_provider_id`.
pub fn is_sync_source_provider_id(id: &str, target_provider_id: &str) -> (r: bool)
    ensures
        r == is_sync_source(id@, target_provider_id@),
{
    if str_eq(id, target_provider_id) {
        return false;
    }
    if is_openai_custom_pair(id, target_provider_id) {
        return true;
    }
    is_legacy_provider_id(id)
}


pub open spec fn is_ascii_digit(c: char) -> bool {
    0x30 <= (c as u32) <= 0x39
}

pub open spec fn is_ascii_upper(c: char) -> bool {
    0x41 <= (c as u32) <= 0x5A
}

pub open spec fn is_ascii_lower(c: char) -> bool {
    0x61 <= (c as u32) <= 0x7A
}

pub open spec fn is_ascii_alpha(c: char) -> bool {
    is_ascii_upper(c) || is_ascii_lower(c)
}

pub open spec fn is_ascii_alnum(c: char) -> bool {
    is_ascii_alpha(c) || is_ascii_digit(c)
}

/// What `char::to_ascii_lowercase` gives.
pub open spec fn ascii_lower(c: char) -> char {
    if is_ascii_upper(c) {
        ((c as u32) + 32) as char
    } else {
        c
    }
}

/// Maps `A`..`Z` to `a`..`z` and keeps every other character, as
/// `char::to_ascii_lowercase` does.
pub fn to_ascii_lower(c: char) -> (r: char)
    ensures
        r == ascii_lower(c),
{
    if 'A' <= c && c <= 'Z' {
        let u: u8 = (c as u8) + 32;
        u as char
    } else {
        c
    }
}

pub proof fn lemma_ascii_lower(c: char)
    ensures
        is_ascii_alnum(c) ==> is_ascii_lower(ascii_lower(c)) || is_ascii_digit(ascii_lower(c)),
        is_ascii_alpha(c) ==> is_ascii_lower(ascii_lower(c)),
        !is_ascii_upper(c) ==> ascii_lower(c) == c,
{
    if is_ascii_upper(c) {
        let u = (c as u32) + 32;
        assert(0x61 <= u <= 0x7A);
        assert((u as char) as u32 == u);
    }
}

fn char_is_ascii_alnum(c: char) -> (r: bool)
    ensures
        r == is_ascii_alnum(c),
{
    let u = c as u32;
    (0x30 <= u && u <= 0x39) || (0x41 <= u && u <= 0x5A) || (0x61 <= u && u <= 0x7A)
}

fn char_is_ascii_alpha(c: char) -> (r: bool)
    ensures
        r == is_ascii_alpha(c),
{
    let u = c as u32;
    (0x41 <= u && u <= 0x5A) || (0x61 <= u && u <= 0x7A)
}

/// Maps each character: letters and digits become lower case, and every
/// run of other characters becomes one `_`. The flag tells whether the
/// last character mapped was such a run.
pub open spec fn collapse(s: Seq<char>) -> (Seq<char>, bool)
    decreases s.len(),
{
    if s.len() == 0 {
        (Seq::empty(), false)
    } else {
        let (o, p) = collapse(s.drop_last());
        let c = s.last();
        if is_ascii_alnum(c) {
            (o.push(ascii_lower(c)), false)
        } else if p {
            (o, true)
        } else {
            (o.push('_'), true)
        }
    }
}

pub open spec fn strip_underscores_start(s: Seq<char>) -> Seq<char>
    decreases s.len(),
{
    if s.len() > 0 && s[0] == '_' {
        strip_underscores_start(s.drop_first())
    } else {
        s
    }
}

pub open spec fn strip_underscores_end(s: Seq<char>) -> Seq<char>
    decreases s.len(),
{
    if s.len() > 0 && s.last() == '_' {
        strip_underscores_end(s.drop_last())
    } else {
        s
    }
}

/// What `str::trim_matches('_')` gives.
pub open spec fn strip_underscores(s: Seq<char>) -> Seq<char> {
    strip_underscores_end(strip_underscores_start(s))
}

pub open spec fn provider_prefix() -> Seq<char> {
    seq!['p', 'r', 'o', 'v', 'i', 'd', 'e', 'r', '_']
}

/// The sanitized provider id: lower-case letters, digits and single `_`
/// separators, starting with a letter; `None` where nothing is left.
pub open spec fn sanitize(raw: Seq<char>) -> Option<Seq<char>> {
    let core = strip_underscores(collapse(trim(raw)).0);
    if core.len() == 0 {
        None
    } else if is_ascii_alpha(core[0]) {
        Some(core)
    } else {
        Some(provider_prefix() + core)
    }
}

/// The bounds `(x, y)` with `strip_underscores(cs) == cs[x..y]`.
fn underscore_bounds(cs: &Vec<char>) -> (r: (usize, usize))
    ensures
        r.0 <= r.1 <= cs.len(),
        strip_underscores(cs@) == cs@.subrange(r.0 as int, r.1 as int),
{
    let len = cs.len();
    let mut a: usize = 0;
    assert(cs@.skip(0) =~= cs@);
    while a < len && cs[a] == '_'
        invariant
            a <= len == cs.len(),
            strip_underscores_start(cs@) == strip_underscores_start(cs@.skip(a as int)),
        decreases len - a,
    {
        assert(cs@.skip(a as int).drop_first() =~= cs@.skip(a + 1));
        a = a + 1;
    }
    assert(strip_underscores_start(cs@) == cs@.skip(a as int));
    let mut b: usize = len;
    assert(cs@.skip(a as int) =~= cs@.subrange(a as int, len as int));
    while b > a && cs[b - 1] == '_'
        invariant
            a <= b <= len == cs.len(),
            strip_underscores_end(cs@.skip(a as int)) == strip_underscores_end(
                cs@.subrange(a as int, b as int),
            ),
        decreases b,
    {
        assert(cs@.subrange(a as int, b as int).drop_last() =~= cs@.subrange(a as int, b - 1));
        b = b - 1;
    }
    (a, b)
}

/// Turns free text into a provider id (see [`sanitize`]).
pub fn sanitize_provider_id(raw: &str) -> (r: Option<String>)
    ensures
        r matches Some(s) ==> sanitize(raw@) == Some(s@),
        r is None <==> sanitize(raw@) is None,
        r is None <==> !crate::laws::has_ascii_alnum(raw@),
{
    proof {
        crate::laws::lemma_sanitize_none(raw@);
    }
    let cs = chars_of(raw);
    let (a, b) = trim_bounds(&cs);
    let ghost t = cs@.subrange(a as int, b as int);
    let mut out: Vec<char> = Vec::new();
    let mut prev = false;
    let mut i: usize = a;
    assert(t.take(0) =~= Seq::<char>::empty());
    while i < b
        invariant
            a <= i <= b <= cs.len(),
            t == cs@.subrange(a as int, b as int),
            collapse(t.take(i - a)) == (out@, prev),
        decreases b - i,
    {
        let c = cs[i];
        assert(t.take(i - a + 1).drop_last() =~= t.take(i - a));
        assert(t.take(i - a + 1).last() == c);
        if char_is_ascii_alnum(c) {
            out.push(to_ascii_lower(c));
            prev = false;
        } else if !prev {
            out.push('_');
            prev = true;
        }
        i = i + 1;
    }
    assert(t.take(b - a) =~= t);
    let (x, y) = underscore_bounds(&out);
    if x == y {
        return None;
    }
    let mut res = String::new();
    let ghost core = out@.subrange(x as int, y as int);
    if !char_is_ascii_alpha(out[x]) {
        res.push('p');
        res.push('r');
        res.push('o');
        res.push('v');
        res.push('i');
        res.push('d');
        res.push('e');
        res.push('r');
        res.push('_');
    }
    let ghost start = res@;
    let mut k: usize = x;
    while k < y
        invariant
            x <= k <= y <= out.len(),
            res@ == start + out@.subrange(x as int, k as int),
        decreases y - k,
    {
        res.push(out[k]);
        k = k + 1;
        assert(res@ =~= start + out@.subrange(x as int, k as int));
    }
    assert(core[0] == out@[x as int]);
    proof {
        if !is_ascii_alpha(core[0]) {
            assert(start =~= provider_prefix());
        } else {
            assert(start =~= Seq::<char>::empty());
        }
    }
    Some(res)
}


/// Names the SHA-256 digest of `data`.
pub uninterp spec fn sha256(data: Seq<u8>) -> Seq<u8>;

/// Calls `sha2::Sha256::digest`: the result is the SHA-256 digest of `data`,
/// 32 bytes long (the digest's output size).
#[verifier::external_body]
fn sha256_digest(data: &[u8]) -> (r: Vec<u8>)
    ensures
        r@ == sha256(data@),
        r@.len() == 32,
{
    sha2::Sha256::digest(data).to_vec()
}

/// Lower-case hexadecimal, two digits per byte, high half first.
pub open spec fn hex_lower(bytes: Seq<u8>) -> Seq<char>
    decreases bytes.len(),
{
    if bytes.len() == 0 {
        Seq::empty()
    } else {
        hex_lower(bytes.drop_last()) + seq![
            hex_digit((bytes.last() / 16) as int),
            hex_digit((bytes.last() % 16) as int),
        ]
    }
}

pub proof fn lemma_hex_lower_len(bytes: Seq<u8>)
    ensures
        hex_lower(bytes).len() == 2 * bytes.len(),
    decreases bytes.len(),
{
    if bytes.len() > 0 {
        lemma_hex_lower_len(bytes.drop_last());
    }
}

/// The hexadecimal SHA-256 digest of the UTF-8 bytes of a text.
pub open spec fn secret_hash_of(value: Seq<char>) -> Seq<char> {
    hex_lower(sha256(vstd::utf8::encode_utf8(value)))
}

/// The lower-case hexadecimal SHA-256 digest of `value`'s UTF-8 bytes.
pub fn secret_hash(value: &str) -> (r: String)
    ensures
        r@ == secret_hash_of(value@),
        r@.len() == 64,
{
    proof {
        reveal_strlit("0123456789abcdef");
    }
    let digest = sha256_digest(value.as_bytes());
    let digits = chars_of("0123456789abcdef");
    let mut r = String::new();
    let mut i: usize = 0;
    while i < digest.len()
        invariant
            i <= digest.len() == 32,
            digits@ == "0123456789abcdef"@,
            digits@.len() == 16,
            r@ == hex_lower(digest@.take(i as int)),
        decreases digest.len() - i,
    {
        let byte = digest[i];
        r.push(digits[(byte / 16) as usize]);
        r.push(digits[(byte % 16) as usize]);
        assert(digest@.take(i + 1).drop_last() =~= digest@.take(i as int));
        i = i + 1;
        assert(r@ =~= hex_lower(digest@.take(i as int)));
    }
    assert(digest@.take(32) =~= digest@);
    proof {
        lemma_hex_lower_len(digest@);
    }
    r
}

/// The id given to an imported OpenAI account:
/// `chr_openai_<sanitized name or "chatgpt">_<first 8 hex digits of the
/// account id's SHA-256>`.
pub open spec fn oauth_provider_id(provider_name: Seq<char>, account_id: Seq<char>) -> Seq<char> {
    let name = match sanitize(provider_name) {
        Some(n) => n,
        None => "chatgpt"@,
    };
    "chr_openai_"@ + name + seq!['_'] + secret_hash_of(account_id).take(8)
}

/// Appends the characters of `s`.
pub fn push_all(out: &mut String, s: &str)
    ensures
        final(out)@ == old(out)@ + s@,
{
    let cs = chars_of(s);
    let ghost start = out@;
    let mut i: usize = 0;
    while i < cs.len()
        invariant
            i <= cs.len(),
            cs@ == s@,
            out@ == start + cs@.take(i as int),
        decreases cs.len() - i,
    {
        out.push(cs[i]);
        i = i + 1;
        assert(out@ =~= start + cs@.take(i as int));
    }
    assert(cs@.take(cs.len() as int) =~= s@);
}

/// Appends the first `n` characters of `s`.
pub fn push_prefix(out: &mut String, s: &str, n: usize)
    requires
        n <= s@.len(),
    ensures
        final(out)@ == old(out)@ + s@.take(n as int),
{
    let cs = chars_of(s);
    let ghost start = out@;
    let mut i: usize = 0;
    while i < n
        invariant
            i <= n <= cs.len(),
            cs@ == s@,
            out@ == start + cs@.take(i as int),
        decreases n - i,
    {
        out.push(cs[i]);
        i = i + 1;
        assert(out@ =~= start + cs@.take(i as int));
    }
}

/// Derives the provider id of an imported OpenAI account; the id is
/// already sanitized, so that giving it back as a provider id keeps it.
pub fn derive_oauth_provider_id(provider_name: &str, account_id: &str) -> (r: String)
    ensures
        r@ == oauth_provider_id(provider_name@, account_id@),
        sanitize(r@) == Some(r@),
{
    let name = match sanitize_provider_id(provider_name) {
        Some(n) => n,
        None => String::from_str("chatgpt"),
    };
    let hash = secret_hash(account_id);
    let mut r = String::new();
    push_all(&mut r, "chr_openai_");
    push_all(&mut r, name.as_str());
    r.push('_');
    push_prefix(&mut r, hash.as_str(), 8);
    assert(r@ =~= oauth_provider_id(provider_name@, account_id@));
    proof {
        crate::laws::lemma_oauth_id_shape(provider_name@, account_id@);
        crate::laws::lemma_clean_id_sanitizes_to_itself(r@);
    }
    r
}

} // verus!
