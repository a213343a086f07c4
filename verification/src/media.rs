//! Uploaded media: which content types are accepted, how a file is converted to an animated
//! WebP, the temporary and stored file names, and the dimensions recorded for the result.
use vstd::prelude::*;
use crate::text::{append_str, chars_of, owned_string, views};
use crate::search::{is_prefix, starts_with};

verus! {

/// The content types an upload or a suggestion may have.
pub open spec fn allowed_content_type(ct: Seq<char>) -> bool {
    ||| ct == "image/gif"@
    ||| ct == "image/jpeg"@
    ||| ct == "image/png"@
    ||| ct == "image/webp"@
    ||| ct == "video/mp4"@
    ||| ct == "video/webm"@
    ||| ct == "video/quicktime"@
}

/// Whether an uploaded file of content type `content_type` is accepted.
pub fn is_allowed_content_type(content_type: &str) -> (b: bool)
    ensures
        b == allowed_content_type(content_type@),
{
    let ct = owned_string(content_type);
    ct == owned_string("image/gif") || ct == owned_string("image/jpeg") || ct == owned_string(
        "image/png",
    ) || ct == owned_string("image/webp") || ct == owned_string("video/mp4") || ct
        == owned_string("video/webm") || ct == owned_string("video/quicktime")
}

/// The bytes `ANIM`, which open the animation chunk of an animated WebP.
pub open spec fn anim_marker() -> Seq<u8> {
    seq![0x41u8, 0x4Eu8, 0x49u8, 0x4Du8]
}

/// Whether the bytes `ANIM` occur somewhere in `data`.
pub open spec fn has_anim_marker(data: Seq<u8>) -> bool {
    exists|i: int| 0 <= i && i + 4 <= data.len() && #[trigger] data.subrange(i, i + 4) == anim_marker()
}

/// Whether an uploaded file is animated, judged by an `ANIM` chunk in its bytes.
pub fn is_animated(data: &[u8]) -> (b: bool)
    ensures
        b == has_anim_marker(data@),
{
    let n = data.len();
    if n < 4 {
        proof {
            assert forall|i: int| 0 <= i && i + 4 <= data@.len() implies #[trigger] data@.subrange(
                i,
                i + 4,
            ) != anim_marker() by {}
        }
        return false;
    }
    let mut i: usize = 0;
    while i <= n - 4
        invariant
            n == data@.len(),
            n >= 4,
            i <= n - 3,
            forall|k: int| 0 <= k < i ==> #[trigger] data@.subrange(k, k + 4) != anim_marker(),
        decreases n - i,
    {
        if data[i] == 0x41u8 && data[i + 1] == 0x4Eu8 && data[i + 2] == 0x49u8 && data[i + 3]
            == 0x4Du8 {
            proof {
                assert(data@.subrange(i as int, i + 4) =~= anim_marker());
            }
            return true;
        }
        proof {
            let w = data@.subrange(i as int, i + 4);
            if w == anim_marker() {
                assert(w[0] == data@[i as int]);
                assert(w[1] == data@[i + 1]);
                assert(w[2] == data@[i + 2]);
                assert(w[3] == data@[i + 3]);
            }
        }
        i = i + 1;
    }
    false
}

// ---------------------------------------------------------------- conversion

/// How an upload is turned into the stored WebP.
pub enum ConversionPlan {
    /// An animated WebP is stored as it is.
    CopyAsIs,
    /// Run `ffmpeg` with these arguments.
    Ffmpeg(Vec<String>),
}

/// The `ffmpeg` options that encode lossy WebP at compression level 6 and quality 90.
pub open spec fn webp_encoding() -> Seq<Seq<char>> {
    seq![
        "-c:v"@,
        "libwebp"@,
        "-lossless"@,
        "0"@,
        "-compression_level"@,
        "6"@,
        "-q:v"@,
        "90"@,
    ]
}

/// The arguments `ffmpeg` is run with, where it is run at all.
pub open spec fn ffmpeg_args_of(ct: Seq<char>, animated: bool, tmp_in: Seq<char>, tmp_out: Seq<char>) -> Seq<Seq<char>> {
    let head = if animated && (ct == "image/gif"@ || ct == "image/webp"@) {
        seq!["-y"@, "-ignore_loop"@, "0"@]
    } else {
        seq!["-y"@]
    };
    if ct == "image/webp"@ || ct == "image/jpeg"@ || ct == "image/png"@ {
        head + seq!["-loop"@, "1"@, "-r"@, "2"@, "-i"@, tmp_in] + webp_encoding() + seq![
            "-vframes"@,
            "2"@,
            "-loop"@,
            "0"@,
            tmp_out,
        ]
    } else if is_prefix("video/"@, ct) {
        head + seq!["-i"@, tmp_in] + webp_encoding() + seq!["-loop"@, "0"@, "-an"@, tmp_out]
    } else {
        head + seq!["-i"@, tmp_in] + webp_encoding() + seq!["-loop"@, "0"@, tmp_out]
    }
}

/// Whether an upload is stored without conversion: an animated WebP.
pub open spec fn copied_as_is(ct: Seq<char>, animated: bool) -> bool {
    ct == "image/webp"@ && animated
}

fn push_lit(v: &mut Vec<String>, lit: &str)
    ensures
        views(final(v)@) == views(old(v)@).push(lit@),
{
    let ghost before = v@;
    v.push(owned_string(lit));
    proof {
        assert(views(v@) =~= views(before).push(lit@));
    }
}

fn push_webp_encoding(v: &mut Vec<String>)
    ensures
        views(final(v)@) == views(old(v)@) + webp_encoding(),
{
    let ghost start = views(v@);
    push_lit(v, "-c:v");
    push_lit(v, "libwebp");
    push_lit(v, "-lossless");
    push_lit(v, "0");
    push_lit(v, "-compression_level");
    push_lit(v, "6");
    push_lit(v, "-q:v");
    push_lit(v, "90");
    proof {
        assert(views(v@) =~= start + webp_encoding());
    }
}

/// How to convert an upload of content type `content_type` held in `tmp_in` into a WebP
/// written to `tmp_out`: an animated WebP is kept as it is; static images become a
/// two-frame looping WebP, so that chat clients treat them as animations; videos and GIFs
/// are re-encoded, videos without sound.
pub fn conversion_plan(content_type: &str, animated: bool, tmp_in: &str, tmp_out: &str) -> (plan: ConversionPlan)
    ensures
        match plan {
            ConversionPlan::CopyAsIs => copied_as_is(content_type@, animated),
            ConversionPlan::Ffmpeg(args) => !copied_as_is(content_type@, animated) && views(args@)
                == ffmpeg_args_of(content_type@, animated, tmp_in@, tmp_out@),
        },
{
    let ct = owned_string(content_type);
    let is_gif = ct == owned_string("image/gif");
    let is_webp = ct == owned_string("image/webp");
    let is_jpeg = ct == owned_string("image/jpeg");
    let is_png = ct == owned_string("image/png");
    if is_webp && animated {
        return ConversionPlan::CopyAsIs;
    }
    let mut args: Vec<String> = Vec::new();
    push_lit(&mut args, "-y");
    if animated && (is_gif || is_webp) {
        push_lit(&mut args, "-ignore_loop");
        push_lit(&mut args, "0");
    }
    let ghost head = views(args@);
    proof {
        assert(head =~= (if animated && (content_type@ == "image/gif"@ || content_type@
            == "image/webp"@) {
            seq!["-y"@, "-ignore_loop"@, "0"@]
        } else {
            seq!["-y"@]
        }));
    }
    if is_webp || is_jpeg || is_png {
        push_lit(&mut args, "-loop");
        push_lit(&mut args, "1");
        push_lit(&mut args, "-r");
        push_lit(&mut args, "2");
        push_lit(&mut args, "-i");
        push_lit(&mut args, tmp_in);
        let ghost mid = views(args@);
        push_webp_encoding(&mut args);
        let ghost enc = views(args@);
        push_lit(&mut args, "-vframes");
        push_lit(&mut args, "2");
        push_lit(&mut args, "-loop");
        push_lit(&mut args, "0");
        push_lit(&mut args, tmp_out);
        proof {
            assert(mid =~= head + seq!["-loop"@, "1"@, "-r"@, "2"@, "-i"@, tmp_in@]);
            assert(views(args@) =~= enc + seq!["-vframes"@, "2"@, "-loop"@, "0"@, tmp_out@]);
        }
    } else {
        let ct_chars = chars_of(content_type);
        let video_prefix = chars_of("video/");
        let is_video = starts_with(ct_chars.as_slice(), video_prefix.as_slice());
        push_lit(&mut args, "-i");
        push_lit(&mut args, tmp_in);
        let ghost mid = views(args@);
        push_webp_encoding(&mut args);
        let ghost enc = views(args@);
        push_lit(&mut args, "-loop");
        push_lit(&mut args, "0");
        if is_video {
            push_lit(&mut args, "-an");
        }
        push_lit(&mut args, tmp_out);
        proof {
            assert(mid =~= head + seq!["-i"@, tmp_in@]);
            if is_video {
                assert(views(args@) =~= enc + seq!["-loop"@, "0"@, "-an"@, tmp_out@]);
            } else {
                assert(views(args@) =~= enc + seq!["-loop"@, "0"@, tmp_out@]);
            }
        }
    }
    ConversionPlan::Ffmpeg(args)
}

// ---------------------------------------------------------------- names

/// The lowercase hexadecimal digit of a value below sixteen.
pub open spec fn hex_digit(n: int) -> char {
    seq!['0', '1', '2', '3', '4', '5', '6', '7', '8', '9', 'a', 'b', 'c', 'd', 'e', 'f'][n]
}

/// Lowercase hexadecimal: two digits per byte, the high half first.
pub open spec fn hex_of(bytes: Seq<u8>) -> Seq<char>
    decreases bytes.len(),
{
    if bytes.len() == 0 {
        Seq::<char>::empty()
    } else {
        hex_of(bytes.drop_last()) + seq![
            hex_digit(bytes.last() as int / 16),
            hex_digit(bytes.last() as int % 16),
        ]
    }
}

/// Calls `hex::encode`, which writes each byte as two lowercase hexadecimal digits, the high
/// half first.
#[verifier::external_body]
fn hex_encode(bytes: &[u8]) -> (s: String)
    ensures
        s@ == hex_of(bytes@),
{
    hex::encode(bytes)
}

/// The temporary file an upload is written to, named by four random bytes.
pub fn temp_input_path(random: &[u8; 4]) -> (path: String)
    ensures
        path@ == "/tmp/in_"@ + hex_of(random@) + ".tmp"@,
{
    let h = hex_encode(random.as_slice());
    let mut path = owned_string("/tmp/in_");
    append_str(&mut path, h.as_str());
    append_str(&mut path, ".tmp");
    path
}

/// The temporary file the converted WebP is written to, named by four random bytes.
pub fn temp_output_path(random: &[u8; 4]) -> (path: String)
    ensures
        path@ == "/tmp/out_"@ + hex_of(random@) + ".webp"@,
{
    let h = hex_encode(random.as_slice());
    let mut path = owned_string("/tmp/out_");
    append_str(&mut path, h.as_str());
    append_str(&mut path, ".webp");
    path
}

/// The key a new GIF is stored under, named by eight random bytes.
pub fn new_object_key(random: &[u8; 8]) -> (key: String)
    ensures
        key@ == hex_of(random@) + ".webp"@,
{
    let mut key = hex_encode(random.as_slice());
    append_str(&mut key, ".webp");
    key
}

// ---------------------------------------------------------------- the stored file

/// The width and height of the image that `bytes` decode to, as `image::load_from_memory`
/// decodes it, or `None` where it does not decode.
pub uninterp spec fn decoded_size(bytes: Seq<u8>) -> Option<(u32, u32)>;

/// Calls `image::load_from_memory` and reads the decoded image's width and height. The
/// result depends on the bytes alone and is named `decoded_size(bytes@)`.
#[verifier::external_body]
fn image_size(bytes: &[u8]) -> (size: Option<(u32, u32)>)
    ensures
        size == decoded_size(bytes@),
{
    match image::load_from_memory(bytes) {
        Ok(img) => Some((img.width(), img.height())),
        Err(_) => None,
    }
}

/// The file stored for an upload, and the dimensions recorded for it.
pub struct StoredMedia {
    pub data: Vec<u8>,
    pub size: Option<(u32, u32)>,
}

/// The file stored for an upload: the converted WebP where conversion succeeded, else the
/// uploaded bytes; with its dimensions where it decodes as an image.
pub fn stored_media(converted: Option<Vec<u8>>, uploaded: Vec<u8>) -> (m: StoredMedia)
    ensures
        m.data@ == match converted {
            Some(c) => c@,
            None => uploaded@,
        },
        m.size == decoded_size(m.data@),
{
    let data = match converted {
        Some(c) => c,
        None => uploaded,
    };
    let size = image_size(data.as_slice());
    StoredMedia { data, size }
}

// ---------------------------------------------------------------- laws

/// A static JPEG, PNG or WebP becomes a looping two-frame WebP at two frames per second, so
/// that chat clients let it be kept as a favourite.
pub proof fn law_static_images_become_two_frame_loops(ct: Seq<char>, tmp_in: Seq<char>, tmp_out: Seq<char>)
    requires
        ct == "image/jpeg"@ || ct == "image/png"@ || ct == "image/webp"@,
    ensures
        !copied_as_is(ct, false),
        ({
            let args = ffmpeg_args_of(ct, false, tmp_in, tmp_out);
            &&& args.len() == 20
            &&& args[1] == "-loop"@ && args[2] == "1"@
            &&& args[3] == "-r"@ && args[4] == "2"@
            &&& args[5] == "-i"@ && args[6] == tmp_in
            &&& args[15] == "-vframes"@ && args[16] == "2"@
            &&& args[17] == "-loop"@ && args[18] == "0"@
            &&& args[19] == tmp_out
        }),
{
    reveal_strlit("image/jpeg");
    reveal_strlit("image/png");
    reveal_strlit("image/webp");
    reveal_strlit("image/gif");
}

/// Videos are re-encoded without their sound track.
pub proof fn law_videos_lose_sound(ct: Seq<char>, animated: bool, tmp_in: Seq<char>, tmp_out: Seq<char>)
    requires
        allowed_content_type(ct),
        is_prefix("video/"@, ct),
    ensures
        !copied_as_is(ct, animated),
        ffmpeg_args_of(ct, animated, tmp_in, tmp_out).contains("-an"@),
{
    reveal_strlit("video/");
    reveal_strlit("video/mp4");
    reveal_strlit("video/webm");
    reveal_strlit("video/quicktime");
    reveal_strlit("image/jpeg");
    reveal_strlit("image/png");
    reveal_strlit("image/webp");
    reveal_strlit("image/gif");
    assert(ct.take(6)[0] == 'v');
    assert(ct[0] == 'v');
    assert(ct != "image/jpeg"@ && ct != "image/png"@ && ct != "image/webp"@ && ct != "image/gif"@) by {
        assert("image/jpeg"@[0] == 'i');
        assert("image/png"@[0] == 'i');
        assert("image/webp"@[0] == 'i');
        assert("image/gif"@[0] == 'i');
    }
    let args = ffmpeg_args_of(ct, animated, tmp_in, tmp_out);
    assert(args[args.len() - 2] == "-an"@);
}


/// The accepted uploads are GIF, JPEG, PNG and WebP images and MP4, WebM and QuickTime
/// videos: each of those content types is accepted, and no other.
pub proof fn law_accepted_content_types()
    ensures
        forall|sub: Seq<char>|
            (sub == "gif"@ || sub == "jpeg"@ || sub == "png"@ || sub == "webp"@)
                ==> #[trigger] allowed_content_type("image/"@ + sub),
        forall|sub: Seq<char>|
            (sub == "mp4"@ || sub == "webm"@ || sub == "quicktime"@) ==> #[trigger] allowed_content_type(
                "video/"@ + sub,
            ),
        forall|ct: Seq<char>|
            #[trigger] allowed_content_type(ct) ==> (is_prefix("image/"@, ct) && (ct.skip(6)
                == "gif"@ || ct.skip(6) == "jpeg"@ || ct.skip(6) == "png"@ || ct.skip(6)
                == "webp"@)) || (is_prefix("video/"@, ct) && (ct.skip(6) == "mp4"@ || ct.skip(6)
                == "webm"@ || ct.skip(6) == "quicktime"@)),
{
    reveal_strlit("image/");
    reveal_strlit("video/");
    reveal_strlit("gif");
    reveal_strlit("jpeg");
    reveal_strlit("png");
    reveal_strlit("webp");
    reveal_strlit("mp4");
    reveal_strlit("webm");
    reveal_strlit("quicktime");
    reveal_strlit("image/gif");
    reveal_strlit("image/jpeg");
    reveal_strlit("image/png");
    reveal_strlit("image/webp");
    reveal_strlit("video/mp4");
    reveal_strlit("video/webm");
    reveal_strlit("video/quicktime");
    assert("image/"@ + "gif"@ =~= "image/gif"@);
    assert("image/"@ + "jpeg"@ =~= "image/jpeg"@);
    assert("image/"@ + "png"@ =~= "image/png"@);
    assert("image/"@ + "webp"@ =~= "image/webp"@);
    assert("video/"@ + "mp4"@ =~= "video/mp4"@);
    assert("video/"@ + "webm"@ =~= "video/webm"@);
    assert("video/"@ + "quicktime"@ =~= "video/quicktime"@);
    assert("image/gif"@.take(6) =~= "image/"@);
    assert("image/jpeg"@.take(6) =~= "image/"@);
    assert("image/png"@.take(6) =~= "image/"@);
    assert("image/webp"@.take(6) =~= "image/"@);
    assert("video/mp4"@.take(6) =~= "video/"@);
    assert("video/webm"@.take(6) =~= "video/"@);
    assert("video/quicktime"@.take(6) =~= "video/"@);
    assert("image/gif"@.skip(6) =~= "gif"@);
    assert("image/jpeg"@.skip(6) =~= "jpeg"@);
    assert("image/png"@.skip(6) =~= "png"@);
    assert("image/webp"@.skip(6) =~= "webp"@);
    assert("video/mp4"@.skip(6) =~= "mp4"@);
    assert("video/webm"@.skip(6) =~= "webm"@);
    assert("video/quicktime"@.skip(6) =~= "quicktime"@);
}

} // verus!
