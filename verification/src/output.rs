use vstd::prelude::*;
use crate::digits::{dec_rep, lemma_dec_rep_injective, lemma_dec_rep_len, usize_to_string};
use vstd::string::StringExecFns;

verus! {

/// The output path of one artifact: `root/key.repetition.format`.
pub open spec fn path_spec(root: Seq<char>, key: Seq<char>, rep: nat, fmt: Seq<char>) -> Seq<char> {
    root + seq!['/'] + key + seq!['.'] + dec_rep(rep) + seq!['.'] + fmt
}

/// Build the output path for one (key, repetition) work unit.
pub fn make_path(root: &str, key: &str, rep: usize, fmt: &str) -> (r: String)
    ensures
        r@ == path_spec(root@, key@, rep as nat, fmt@),
{
    let mut s = root.to_owned();
    crate::strutil::push_char(&mut s, '/');
    s.append(key);
    crate::strutil::push_char(&mut s, '.');
    s.append(usize_to_string(rep).as_str());
    crate::strutil::push_char(&mut s, '.');
    s.append(fmt);
    proof {
        assert(s@ =~= path_spec(root@, key@, rep as nat, fmt@));
    }
    s
}

/// Output paths are injective: under one root and format, two work
/// units whose keys have the same length get the same path only if
/// they are the same unit. (All keys of one run share their length.)
pub proof fn lemma_path_injective(
    root: Seq<char>,
    k1: Seq<char>,
    r1: nat,
    k2: Seq<char>,
    r2: nat,
    fmt: Seq<char>,
)
    requires
        k1.len() == k2.len(),
        !(k1 == k2 && r1 == r2),
    ensures
        path_spec(root, k1, r1, fmt) != path_spec(root, k2, r2, fmt),
{
    if path_spec(root, k1, r1, fmt) == path_spec(root, k2, r2, fmt) {
        let p1 = path_spec(root, k1, r1, fmt);
        let p2 = path_spec(root, k2, r2, fmt);
        lemma_dec_rep_len(r1);
        lemma_dec_rep_len(r2);
        assert(p1.len() == root.len() + 1 + k1.len() + 1 + dec_rep(r1).len() + 1 + fmt.len());
        assert(p2.len() == root.len() + 1 + k2.len() + 1 + dec_rep(r2).len() + 1 + fmt.len());
        assert(dec_rep(r1).len() == dec_rep(r2).len());
        let kstart = root.len() + 1;
        assert forall|p: int| 0 <= p < k1.len() implies k1[p] == k2[p] by {
            assert(p1[kstart + p] == k1[p]);
            assert(p2[kstart + p] == k2[p]);
        }
        assert(k1 =~= k2);
        let dstart = kstart + k1.len() + 1;
        assert forall|p: int| 0 <= p < dec_rep(r1).len() implies dec_rep(r1)[p] == dec_rep(
            r2,
        )[p] by {
            assert(p1[dstart + p] == dec_rep(r1)[p]);
            assert(p2[dstart + p] == dec_rep(r2)[p]);
        }
        assert(dec_rep(r1) =~= dec_rep(r2));
        lemma_dec_rep_injective(r1, r2);
        assert(false);
    }
}

/// Options handed through to the captcha renderer, plain values only.
pub struct RenderOptions {
    pub length: usize,
    pub width: u32,
    pub height: u32,
    pub complexity: u32,
    pub dark_mode: bool,
}

#[verifier::external_type_specification]
#[verifier::external_body]
pub struct ExCaptcha(captcha_rs::Captcha);

/// Relies on `captcha_rs::CaptchaBuilder`: renders an in-memory
/// captcha image of the given text (clamping each numeric option into
/// the range the crate accepts, and truncating the text to 32
/// characters). The rendering is randomized, so nothing is claimed of
/// the result.
#[verifier::external_body]
fn string_to_captcha(s: &str, opts: &RenderOptions) -> captcha_rs::Captcha {
    captcha_rs::CaptchaBuilder::new()
        .length(opts.length)
        .width(opts.width)
        .height(opts.height)
        .dark_mode(opts.dark_mode)
        .complexity(opts.complexity)
        .text(s.to_owned())
        .build()
}

/// One work unit of the artifact writer: render the key and name the
/// file the artifact belongs in. Persisting the image is the caller's
/// part; writing the same unit twice names the same path, so the
/// second write overwrites the first.
pub fn render_artifact(root: &str, key: &str, rep: usize, fmt: &str, opts: &RenderOptions) -> (r: (
    String,
    captcha_rs::Captcha,
))
    ensures
        r.0@ == path_spec(root@, key@, rep as nat, fmt@),
{
    let path = make_path(root, key, rep, fmt);
    let image = string_to_captcha(key, opts);
    (path, image)
}

} // verus!
