use crate::trusted::{text_lossy, utf8_lossy_text};
use vstd::prelude::*;
use vstd::utf8::*;
use vstd::string::*;

verus! {

/// What running the executable once with its version flag gave.
pub struct ProbeRun {
    /// Whether the process ended with success.
    pub success: bool,
    /// Everything the process wrote to its standard output.
    pub stdout: Vec<u8>,
    /// Everything the process wrote to its standard error.
    pub stderr: Vec<u8>,
}

/// Why no version could be had.
#[derive(Debug, PartialEq, Eq)]
pub enum ProbeError {
    /// The executable could not be started; the text says why.
    Launch(String),
    /// The process ran and ended without success.
    Failed,
    /// The output holds no line with anything but white space on it.
    NoVersion,
}

/// The text that captured output is read as: what the bytes encode where
/// they are valid UTF-8, and otherwise what is left of them once every
/// invalid sequence has been replaced.
pub open spec fn output_text(bytes: Seq<u8>) -> Seq<char> {
    if valid_utf8(bytes) {
        decode_utf8(bytes)
    } else {
        utf8_lossy_text(bytes)
    }
}

/// The combined output of a run: the text of its standard output, and
/// after it, on lines of its own, the text of its standard error.
pub open spec fn combined_output(stdout: Seq<u8>, stderr: Seq<u8>) -> Seq<char> {
    output_text(stdout) + seq!['\n'] + output_text(stderr)
}

/// Unicode's white space: the characters that trimming removes.
pub open spec fn is_white_space(c: char) -> bool {
    let u = c as u32;
    ||| 0x09 <= u <= 0x0D
    ||| u == 0x20
    ||| u == 0x85
    ||| u == 0xA0
    ||| u == 0x1680
    ||| 0x2000 <= u <= 0x200A
    ||| u == 0x2028
    ||| u == 0x2029
    ||| u == 0x202F
    ||| u == 0x205F
    ||| u == 0x3000
}

/// `s` without the white space at its two ends.
pub open spec fn trimmed(s: Seq<char>) -> Seq<char>
    decreases s.len(),
{
    if s.len() == 0 {
        s
    } else if is_white_space(s[0]) {
        trimmed(s.drop_first())
    } else if is_white_space(s.last()) {
        trimmed(s.drop_last())
    } else {
        s
    }
}

/// The index of the last line feed in `text`, or -1 if it has none.
pub open spec fn last_line_feed(text: Seq<char>) -> int
    decreases text.len(),
{
    if text.len() == 0 {
        -1
    } else if text.last() == '\n' {
        text.len() - 1
    } else {
        last_line_feed(text.drop_last())
    }
}

/// The version that a program's output states: its last line that is
/// not empty once trimmed, trimmed. Lines end at line feeds.
pub open spec fn version_line(text: Seq<char>) -> Option<Seq<char>>
    decreases text.len(),
{
    let feed = last_line_feed(text);
    let line = trimmed(text.subrange(feed + 1, text.len() as int));
    if line.len() > 0 {
        Some(line)
    } else if 0 <= feed < text.len() {
        version_line(text.subrange(0, feed))
    } else {
        None
    }
}

impl ProbeError {
    /// The error as text for the caller.
    pub fn message(&self) -> (res: String)
        ensures
            res@ == (match self {
                ProbeError::Launch(detail) => "启动失败: "@ + detail@,
                ProbeError::Failed => "程序执行失败"@,
                ProbeError::NoVersion => "获取不到版本"@,
            }),
    {
        match self {
            ProbeError::Launch(detail) => String::from_str("启动失败: ").concat(detail.as_str()),
            ProbeError::Failed => String::from_str("程序执行失败"),
            ProbeError::NoVersion => String::from_str("获取不到版本"),
        }
    }
}

/// Where the last line of `s` begins: after the last line feed.
proof fn lemma_last_line_feed(s: Seq<char>, start: int)
    requires
        0 <= start <= s.len(),
        forall|k: int| start <= k < s.len() ==> s[k] != '\n',
        start == 0 || s[start - 1] == '\n',
    ensures
        last_line_feed(s) == start - 1,
    decreases s.len(),
{
    if s.len() > 0 && start < s.len() {
        assert(s.last() != '\n');
        lemma_last_line_feed(s.drop_last(), start);
    }
}

/// Trimming leaves the part between the white space at the two ends.
proof fn lemma_trimmed(s: Seq<char>, a: int, b: int)
    requires
        0 <= a <= b <= s.len(),
        forall|k: int| 0 <= k < a ==> is_white_space(s[k]),
        forall|k: int| b <= k < s.len() ==> is_white_space(s[k]),
        a < b ==> !is_white_space(s[a]) && !is_white_space(s[b - 1]),
    ensures
        trimmed(s) == s.subrange(a, b),
    decreases s.len(),
{
    if s.len() == 0 {
        assert(s =~= s.subrange(a, b));
    } else if is_white_space(s[0]) {
        let rest = s.drop_first();
        if a < b {
            assert(a >= 1);
            lemma_trimmed(rest, a - 1, b - 1);
            assert(rest.subrange(a - 1, b - 1) =~= s.subrange(a, b));
        } else {
            // Nothing but white space: the witness may sit anywhere.
            assert forall|k: int| 0 <= k < rest.len() implies is_white_space(rest[k]) by {
                assert(rest[k] == s[k + 1]);
            }
            lemma_trimmed(rest, 0, 0);
            assert(rest.subrange(0, 0) =~= s.subrange(a, b));
        }
    } else if is_white_space(s.last()) {
        assert(a == 0 && b < s.len());
        let rest = s.drop_last();
        lemma_trimmed(rest, a, b);
        assert(rest.subrange(a, b) =~= s.subrange(a, b));
    } else {
        assert(a == 0 && b == s.len());
        assert(s =~= s.subrange(a, b));
    }
}

/// Whether `c` is white space.
pub fn is_space(c: char) -> (res: bool)
    ensures
        res == is_white_space(c),
{
    let u: u32 = c as u32;
    (0x09 <= u && u <= 0x0D) || u == 0x20 || u == 0x85 || u == 0xA0 || u == 0x1680 || (0x2000 <= u
        && u <= 0x200A) || u == 0x2028 || u == 0x2029 || u == 0x202F || u == 0x205F || u == 0x3000
}

/// The characters of `text`, one by one.
fn chars_of(text: &str) -> (res: Vec<char>)
    ensures
        res@ == text@,
{
    let mut chars: Vec<char> = Vec::new();
    for c in it: text.chars()
        invariant
            chars@ == text@.take(it.index() as int),
            it.seq() == text@,
    {
        chars.push(c);
    }
    chars
}

/// The version that `text` states: its last line that is not empty once
/// trimmed, or `None` if it has no such line.
pub fn last_version_line(text: &str) -> (res: Option<String>)
    ensures
        match version_line(text@) {
            Some(version) => res matches Some(found) && found@ == version,
            None => res is None,
        },
{
    let chars = chars_of(text);
    let mut end: usize = chars.len();
    assert(text@.subrange(0, end as int) =~= text@);
    loop
        invariant
            chars@ == text@,
            end <= chars@.len(),
            version_line(text@) == version_line(text@.subrange(0, end as int)),
        decreases end,
    {
        let ghost head = text@.subrange(0, end as int);
        let mut start: usize = end;
        while start > 0 && chars[start - 1] != '\n'
            invariant
                start <= end <= chars@.len(),
                forall|k: int| start <= k < end ==> chars@[k] != '\n',
            decreases start,
        {
            start -= 1;
        }
        let mut first: usize = start;
        while first < end && is_space(chars[first])
            invariant
                start <= first <= end <= chars@.len(),
                forall|k: int| start <= k < first ==> is_white_space(chars@[k]),
            decreases end - first,
        {
            first += 1;
        }
        let mut last: usize = end;
        while last > first && is_space(chars[last - 1])
            invariant
                first <= last <= end <= chars@.len(),
                forall|k: int| last <= k < end ==> is_white_space(chars@[k]),
            decreases last,
        {
            last -= 1;
        }
        proof {
            lemma_last_line_feed(head, start as int);
            let line = head.subrange(start as int, end as int);
            lemma_trimmed(line, first - start, last - start);
            assert(line.subrange(first - start, last - start) =~= text@.subrange(
                first as int,
                last as int,
            ));
            if start > 0 {
                assert(head.subrange(0, start - 1) =~= text@.subrange(0, start - 1));
            }
        }
        if first < last {
            return Some(String::from_str(text.substring_char(first, last)));
        }
        if start == 0 {
            return None;
        }
        end = start - 1;
    }
}

/// Where standard error states a version, that is the version of the
/// combined output; where it states none, the version is that of standard
/// output.
pub proof fn lemma_version_of_combined(first: Seq<char>, second: Seq<char>)
    ensures
        version_line(first + seq!['\n'] + second) == (match version_line(second) {
            Some(version) => Some(version),
            None => version_line(first),
        }),
    decreases second.len(),
{
    let whole = first + seq!['\n'] + second;
    let cut = first.len() as int;
    let feed = last_line_feed(second);
    lemma_feed_in_range(second);
    lemma_feed_after_prefix(first + seq!['\n'], second);
    if feed >= 0 {
        assert(last_line_feed(whole) == cut + 1 + feed);
        assert(whole.subrange(cut + 1 + feed + 1, whole.len() as int) =~= second.subrange(
            feed + 1,
            second.len() as int,
        ));
        assert(whole.subrange(0, cut + 1 + feed) =~= first + seq!['\n'] + second.subrange(
            0,
            feed,
        ));
        lemma_version_of_combined(first, second.subrange(0, feed));
    } else {
        assert(last_line_feed(whole) == cut);
        assert(whole.subrange(cut + 1, whole.len() as int) =~= second);
        assert(second.subrange(0, second.len() as int) =~= second);
        assert(whole.subrange(0, cut) =~= first);
    }
}

/// The last line feed of a text lies within it.
proof fn lemma_feed_in_range(text: Seq<char>)
    ensures
        -1 <= last_line_feed(text) < text.len(),
        last_line_feed(text) >= 0 ==> text[last_line_feed(text)] == '\n',
    decreases text.len(),
{
    if text.len() > 0 && text.last() != '\n' {
        lemma_feed_in_range(text.drop_last());
    }
}

/// The last line feed of a text whose front part ends in a line feed lies
/// in the rear part where that has one, and at the front part's end where
/// it has none.
proof fn lemma_feed_after_prefix(front: Seq<char>, rear: Seq<char>)
    requires
        front.len() > 0,
        front.last() == '\n',
    ensures
        last_line_feed(front + rear) == (if last_line_feed(rear) >= 0 {
            front.len() + last_line_feed(rear)
        } else {
            front.len() - 1
        }),
    decreases rear.len(),
{
    let whole = front + rear;
    if rear.len() == 0 {
        assert(whole =~= front);
    } else {
        assert(whole.last() == rear.last());
        if rear.last() != '\n' {
            assert(whole.drop_last() =~= front + rear.drop_last());
            lemma_feed_after_prefix(front, rear.drop_last());
        }
    }
}

/// The version of the program, from what running it with its version
/// flag gave.
///
/// A run that could not be started, or that ended without success, is an
/// error. Otherwise the version is the last non-empty trimmed line of the
/// combined output, standard output first and standard error after it;
/// output without such a line is an error. Bytes that are no UTF-8 are
/// replaced.
pub fn frpc_version(run: Result<ProbeRun, String>) -> (res: Result<String, ProbeError>)
    ensures
        match run {
            Err(reason) => res == Err::<String, ProbeError>(ProbeError::Launch(reason)),
            Ok(output) => if !output.success {
                res == Err::<String, ProbeError>(ProbeError::Failed)
            } else {
                match version_line(combined_output(output.stdout@, output.stderr@)) {
                    Some(version) => res matches Ok(found) && found@ == version,
                    None => res == Err::<String, ProbeError>(ProbeError::NoVersion),
                }
            },
        },
{
    let output = match run {
        Err(reason) => {
            return Err(ProbeError::Launch(reason));
        },
        Ok(output) => output,
    };
    if !output.success {
        return Err(ProbeError::Failed);
    }
    let text = text_lossy(output.stdout.as_slice());
    let rest = text_lossy(output.stderr.as_slice());
    let combined = text.concat("\n").concat(rest.as_str());
    proof {
        reveal_strlit("\n");
        assert("\n"@ =~= seq!['\n']);
    }
    match last_version_line(combined.as_str()) {
        Some(version) => Ok(version),
        None => Err(ProbeError::NoVersion),
    }
}

} // verus!
