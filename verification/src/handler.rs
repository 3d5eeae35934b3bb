use crate::config::{Config, ConfigView};
use crate::strutil::{
    last_index_of_char, lemma_last_index_absent, lemma_last_index_of_char, lemma_last_index_unique,
    rlast_index, str_eq, str_starts_with,
};
use vstd::prelude::*;

verus! {

/// The kind of a raw filesystem change notification.
#[derive(Debug, Clone, Copy, PartialEq, Eq, Structural)]
pub enum EventKind {
    Created,
    Modified,
    Removed,
    Other,
}

/// A raw change notification: a kind and one or two absolute paths.  For
/// `Modified`, the first path is the pre-change location and the last the
/// post-change location; they are equal when no rename occurred.
#[derive(Debug, Clone)]
pub struct ChangeEvent {
    pub kind: EventKind,
    pub paths: Vec<String>,
}

/// Mathematical model of a `ChangeEvent`.
pub struct ChangeEventView {
    pub kind: EventKind,
    pub paths: Seq<Seq<char>>,
}

impl View for ChangeEvent {
    type V = ChangeEventView;

    open spec fn view(&self) -> ChangeEventView {
        ChangeEventView { kind: self.kind, paths: self.paths.deep_view() }
    }
}

/// A remote operation derived from a change event: push the file at `path`,
/// or remove the file at `path` from the server.
#[derive(Debug, Clone, PartialEq, Eq)]
pub enum Action {
    Write { path: String },
    Delete { path: String },
}

/// Mathematical model of an `Action`.
pub enum ActionView {
    Write { path: Seq<char> },
    Delete { path: Seq<char> },
}

impl ActionView {
    /// The path the action applies to.
    pub open spec fn path(self) -> Seq<char> {
        match self {
            ActionView::Write { path } => path,
            ActionView::Delete { path } => path,
        }
    }
}

impl View for Action {
    type V = ActionView;

    open spec fn view(&self) -> ActionView {
        match self {
            Action::Write { path } => ActionView::Write { path: path@ },
            Action::Delete { path } => ActionView::Delete { path: path@ },
        }
    }
}

impl DeepView for Action {
    type V = ActionView;

    open spec fn deep_view(&self) -> ActionView {
        self.view()
    }
}

/// The ways translating or building a request can fail.
#[derive(Debug, Clone, Copy, PartialEq, Eq, Structural)]
pub enum HandlerError {
    /// The path does not lie under the configured root directory.
    PathOutsideRoot,
    /// A write's content could not be read between notification and dispatch.
    ContentUnavailable,
}

/// A concrete remote request: a root-relative filename, and base64-encoded
/// content exactly when the request is a write.
#[derive(Debug, Clone, PartialEq, Eq)]
pub struct BitburnerRequest {
    pub filename: String,
    pub code: Option<String>,
}

/// The final component of `path`: everything after the last separator.
pub open spec fn file_name_of(path: Seq<char>) -> Seq<char> {
    path.subrange(last_index_of_char(path, '/') + 1, path.len() as int)
}

/// The extension of `path`, when its final component has one: everything
/// after the component's last dot, provided that dot is not the component's
/// first character.
pub open spec fn extension_of(path: Seq<char>) -> Option<Seq<char>> {
    let name = file_name_of(path);
    let d = last_index_of_char(name, '.');
    if d >= 1 {
        Some(name.subrange(d + 1, name.len() as int))
    } else {
        None
    }
}

/// Whether `path` is tracked: it has an extension and that extension, with
/// its case as given, is one of the allowed ones.
pub open spec fn in_scope(path: Seq<char>, allowed: Seq<Seq<char>>) -> bool {
    match extension_of(path) {
        Some(e) => allowed.contains(e),
        None => false,
    }
}

/// Whether `allowed` contains a string equal to `ext`.
fn contains_extension(ext: &str, allowed: &Vec<String>) -> (r: bool)
    ensures
        r == allowed.deep_view().contains(ext@),
{
    let mut i: usize = 0;
    while i < allowed.len()
        invariant
            0 <= i <= allowed.len(),
            allowed.deep_view().len() == allowed@.len(),
            forall|j: int| 0 <= j < i ==> allowed.deep_view()[j] != ext@,
        decreases allowed.len() - i,
    {
        if str_eq(ext, allowed[i].as_str()) {
            proof {
                assert(allowed.deep_view()[i as int] == ext@);
            }
            return true;
        }
        i += 1;
    }
    proof {
        assert(!allowed.deep_view().contains(ext@));
    }
    false
}

/// The extension filter: whether `path` is in scope under `config`.
pub fn is_valid_file(path: &String, config: &Config) -> (r: bool)
    ensures
        r == in_scope(path@, config@.valid_extensions),
{
    let s = path.as_str();
    let n = s.unicode_len();
    let sl: usize = match rlast_index(s, '/') {
        Some(i) => i + 1,
        None => 0,
    };
    let ghost name = file_name_of(path@);
    proof {
        assert(name =~= path@.subrange(sl as int, n as int));
    }
    match rlast_index(s, '.') {
        None => {
            proof {
                lemma_last_index_of_char(path@, '.');
                assert forall|j: int| 0 <= j < name.len() implies name[j] != '.' by {
                    assert(name[j] == path@[sl + j]);
                }
                lemma_last_index_absent(name, '.');
            }
            false
        },
        Some(d) => {
            proof {
                lemma_last_index_of_char(path@, '.');
            }
            if d < sl {
                proof {
                    assert forall|j: int| 0 <= j < name.len() implies name[j] != '.' by {
                        assert(name[j] == path@[sl + j]);
                    }
                    lemma_last_index_absent(name, '.');
                }
                false
            } else if d == sl {
                proof {
                    assert(name[0] == path@[sl as int]);
                    assert forall|j: int| 0 < j < name.len() implies name[j] != '.' by {
                        assert(name[j] == path@[sl + j]);
                    }
                    lemma_last_index_unique(name, '.', 0);
                }
                false
            } else {
                let ext = s.substring_char(d + 1, n);
                proof {
                    assert(name[d - sl] == path@[d as int]);
                    assert forall|j: int| d - sl < j < name.len() implies name[j] != '.' by {
                        assert(name[j] == path@[sl + j]);
                    }
                    lemma_last_index_unique(name, '.', d - sl);
                    assert(name.subrange(d - sl + 1, name.len() as int) =~= path@.subrange(
                        d + 1,
                        n as int,
                    ));
                }
                contains_extension(ext, &config.valid_extensions)
            }
        },
    }
}

/// Strip every leading separator from `s`.
pub open spec fn strip_leading_slashes(s: Seq<char>) -> Seq<char>
    decreases s.len(),
{
    if s.len() > 0 && s[0] == '/' {
        strip_leading_slashes(s.skip(1))
    } else {
        s
    }
}

/// The server-side identifier of `path` relative to `root`: the remainder
/// after removing the `root` prefix and any leading separator.
pub open spec fn relative_name(path: Seq<char>, root: Seq<char>) -> Seq<char> {
    strip_leading_slashes(path.skip(root.len() as int))
}

proof fn lemma_strip_leading_slashes_skip(s: Seq<char>, k: int)
    requires
        0 <= k <= s.len(),
        forall|j: int| 0 <= j < k ==> s[j] == '/',
        k < s.len() ==> s[k] != '/',
    ensures
        strip_leading_slashes(s) == s.skip(k),
    decreases k,
{
    if k == 0 {
        assert(s.skip(0) =~= s);
    } else {
        assert(s[0] == '/');
        assert forall|j: int| 0 <= j < k - 1 implies s.skip(1)[j] == '/' by {
            assert(s.skip(1)[j] == s[j + 1]);
        }
        if k - 1 < s.skip(1).len() {
            assert(s.skip(1)[k - 1] == s[k]);
        }
        lemma_strip_leading_slashes_skip(s.skip(1), k - 1);
        assert(s.skip(1).skip(k - 1) =~= s.skip(k));
    }
}

/// The path translator: the root-relative, forward-slash identifier of
/// `path`, or `PathOutsideRoot` when `path` does not begin with the
/// configured root directory.
pub fn extract_file_name(path: &String, config: &Config) -> (r: Result<String, HandlerError>)
    ensures
        r.is_ok() == config@.directory.is_prefix_of(path@),
        r matches Ok(name) ==> name@ == relative_name(path@, config@.directory),
        r matches Err(e) ==> e == HandlerError::PathOutsideRoot,
{
    let s = path.as_str();
    let root = config.directory.as_str();
    if !str_starts_with(s, root) {
        return Err(HandlerError::PathOutsideRoot);
    }
    let n = s.unicode_len();
    let m = root.unicode_len();
    let mut i: usize = m;
    loop
        invariant
            m <= i <= n,
            s@.len() == n,
            s@ == path@,
            forall|j: int| m <= j < i ==> s@[j] == '/',
        ensures
            m <= i <= n,
            s@.len() == n,
            forall|j: int| m <= j < i ==> s@[j] == '/',
            i < n ==> s@[i as int] != '/',
        decreases n - i,
    {
        if i >= n {
            break;
        }
        if s.get_char(i) != '/' {
            break;
        }
        i += 1;
    }
    let rest = s.substring_char(i, n);
    proof {
        let t = path@.skip(m as int);
        assert forall|j: int| 0 <= j < i - m implies t[j] == '/' by {
            assert(t[j] == path@[m + j]);
        }
        if (i as int) - (m as int) < t.len() {
            assert(t[i - m] == path@[i as int]);
        }
        lemma_strip_leading_slashes_skip(t, i - m);
        assert(t.skip(i - m) =~= path@.subrange(i as int, n as int));
    }
    Ok(String::from_str(rest))
}

/// Whether every path of the event passes the extension filter.
pub open spec fn all_in_scope(paths: Seq<Seq<char>>, allowed: Seq<Seq<char>>) -> bool {
    forall|i: int| 0 <= i < paths.len() ==> in_scope(paths[i], allowed)
}

/// The ordered remote actions one change event translates to.  An event with
/// any out-of-scope path yields nothing; a rename deletes its source only
/// after the write of its destination.
pub open spec fn classify_spec(ev: ChangeEventView, cfg: ConfigView) -> Seq<
    ActionView,
> {
    if !all_in_scope(ev.paths, cfg.valid_extensions) {
        Seq::empty()
    } else {
        match ev.kind {
            EventKind::Created => seq![ActionView::Write { path: ev.paths.first() }],
            EventKind::Modified => if ev.paths.first() == ev.paths.last() {
                seq![ActionView::Write { path: ev.paths.last() }]
            } else {
                seq![
                    ActionView::Write { path: ev.paths.last() },
                    ActionView::Delete { path: ev.paths.first() },
                ]
            },
            EventKind::Removed => seq![ActionView::Delete { path: ev.paths.first() }],
            EventKind::Other => Seq::empty(),
        }
    }
}

/// The event classifier: a pure function from one change notification to the
/// ordered list of remote actions it requires.
pub fn classify(event: &ChangeEvent, config: &Config) -> (r: Vec<Action>)
    requires
        event.paths@.len() >= 1,
    ensures
        r.deep_view() == classify_spec(event@, config@),
{
    let np = event.paths.len();
    let mut i: usize = 0;
    while i < np
        invariant
            0 <= i <= np,
            event.paths@.len() == np,
            forall|j: int| 0 <= j < i ==> in_scope(event@.paths[j], config@.valid_extensions),
        decreases np - i,
    {
        if !is_valid_file(&event.paths[i], config) {
            proof {
                assert(event@.paths[i as int] == event.paths@[i as int]@);
                assert(!all_in_scope(event@.paths, config@.valid_extensions));
            }
            let r: Vec<Action> = Vec::new();
            proof {
                assert(r.deep_view() =~= classify_spec(event@, config@));
            }
            return r;
        }
        i += 1;
    }
    proof {
        assert forall|j: int| 0 <= j < event@.paths.len() implies in_scope(
            event@.paths[j],
            config@.valid_extensions,
        ) by {
            assert(event@.paths[j] == event.paths@[j]@);
        }
    }
    let source = &event.paths[0];
    let mut r: Vec<Action> = Vec::new();
    match event.kind {
        EventKind::Created => {
            r.push(Action::Write { path: source.clone() });
            proof {
                assert(r.deep_view() =~= classify_spec(event@, config@));
            }
        },
        EventKind::Modified => {
            let destination = &event.paths[event.paths.len() - 1];
            r.push(Action::Write { path: destination.clone() });
            if !str_eq(source.as_str(), destination.as_str()) {
                r.push(Action::Delete { path: source.clone() });
            }
            proof {
                assert(event@.paths.first() == event.paths@[0]@);
                assert(event@.paths.last() == event.paths@[event.paths@.len() - 1]@);
                assert(r.deep_view() =~= classify_spec(event@, config@));
            }
        },
        EventKind::Removed => {
            r.push(Action::Delete { path: source.clone() });
            proof {
                assert(r.deep_view() =~= classify_spec(event@, config@));
            }
        },
        EventKind::Other => {
            proof {
                assert(r.deep_view() =~= classify_spec(event@, config@));
            }
        },
    }
    r
}

/// A name for what `base64::encode` returns on the bytes of a string: the
/// standard-alphabet, padded base64 encoding.
pub uninterp spec fn base64_of(s: Seq<char>) -> Seq<char>;

/// Relies on `base64::encode`: the standard-alphabet, padded encoding of the
/// argument's bytes, a function of those bytes alone; an empty input encodes
/// to an empty string.
#[verifier::external_body]
fn base64_encode(content: &str) -> (r: String)
    ensures
        r@ == base64_of(content@),
        content@.len() == 0 ==> r@.len() == 0,
{
    base64::encode(content)
}

/// The request builder: turn one action into the concrete request the server
/// understands.  A write needs the file's current content, read at dispatch
/// time by the caller; when none could be read the builder reports
/// `ContentUnavailable` rather than crashing.
pub fn build_bitburner_request(action: &Action, content: Option<&String>, config: &Config) -> (r:
    Result<BitburnerRequest, HandlerError>)
    ensures
        r.is_ok() == (config@.directory.is_prefix_of(action@.path()) && ((action@ matches
        ActionView::Delete { .. }) || content.is_some())),
        !config@.directory.is_prefix_of(action@.path()) ==> (r matches Err(e) && e
            == HandlerError::PathOutsideRoot),
        config@.directory.is_prefix_of(action@.path()) && (action@ matches ActionView::Write { .. })
            && content.is_none() ==> (r matches Err(e) && e == HandlerError::ContentUnavailable),
        r matches Ok(req) ==> req.filename@ == relative_name(action@.path(), config@.directory),
        r matches Ok(req) ==> (match action@ {
            ActionView::Write { .. } => content matches Some(c) && req.code matches Some(code)
                && code@ == base64_of(c@),
            ActionView::Delete { .. } => req.code is None,
        }),
{
    let path: &String = match action {
        Action::Write { path } => path,
        Action::Delete { path } => path,
    };
    let filename = match extract_file_name(path, config) {
        Ok(name) => name,
        Err(e) => {
            return Err(e);
        },
    };
    let code: Option<String> = match action {
        Action::Write { .. } => match content {
            Some(c) => Some(base64_encode(c.as_str())),
            None => {
                return Err(HandlerError::ContentUnavailable);
            },
        },
        Action::Delete { .. } => None,
    };
    Ok(BitburnerRequest { filename, code })
}

/// Law: a created file with an allowed extension yields exactly one write of
/// that file.
pub proof fn lemma_classify_created(p: Seq<char>, cfg: ConfigView)
    requires
        in_scope(p, cfg.valid_extensions),
    ensures
        classify_spec((ChangeEventView { kind: EventKind::Created, paths: seq![p] }), cfg)
            == seq![ActionView::Write { path: p }],
{
    let ev = ChangeEventView { kind: EventKind::Created, paths: seq![p] };
    assert forall|i: int| 0 <= i < ev.paths.len() implies in_scope(
        ev.paths[i],
        cfg.valid_extensions,
    ) by {
        assert(ev.paths[i] == p);
    }
    assert(ev.paths.first() == p);
    assert(classify_spec(ev, cfg) =~= seq![ActionView::Write { path: p }]);
}

/// Law: an event is all-or-nothing in scope — one path whose extension is
/// not allowed silences the whole event.  The index `i` names such a path.
pub proof fn lemma_classify_out_of_scope(
    ev: ChangeEventView,
    cfg: ConfigView,
    i: int,
)
    requires
        0 <= i < ev.paths.len(),
        !in_scope(ev.paths[i], cfg.valid_extensions),
    ensures
        classify_spec(ev, cfg) == Seq::<ActionView>::empty(),
{
    assert(!all_in_scope(ev.paths, cfg.valid_extensions));
}

/// Law: a modification that keeps its path yields exactly one write.
pub proof fn lemma_classify_modified_in_place(a: Seq<char>, cfg: ConfigView)
    requires
        in_scope(a, cfg.valid_extensions),
    ensures
        classify_spec((ChangeEventView { kind: EventKind::Modified, paths: seq![a, a] }), cfg)
            == seq![ActionView::Write { path: a }],
{
    let ev = ChangeEventView { kind: EventKind::Modified, paths: seq![a, a] };
    assert forall|i: int| 0 <= i < ev.paths.len() implies in_scope(
        ev.paths[i],
        cfg.valid_extensions,
    ) by {
        assert(ev.paths[i] == a);
    }
    assert(ev.paths.first() == a);
    assert(ev.paths.last() == a);
    assert(classify_spec(ev, cfg) =~= seq![ActionView::Write { path: a }]);
}

/// Law: a rename of `a` to `b`, both in scope, yields the write of `b`
/// before the delete of `a`, in that exact order, so the server never
/// observes a window with neither file present.
pub proof fn lemma_classify_rename(a: Seq<char>, b: Seq<char>, cfg: ConfigView)
    requires
        a != b,
        in_scope(a, cfg.valid_extensions),
        in_scope(b, cfg.valid_extensions),
    ensures
        classify_spec((ChangeEventView { kind: EventKind::Modified, paths: seq![a, b] }), cfg)
            == seq![ActionView::Write { path: b }, ActionView::Delete { path: a }],
{
    let ev = ChangeEventView { kind: EventKind::Modified, paths: seq![a, b] };
    assert forall|i: int| 0 <= i < ev.paths.len() implies in_scope(
        ev.paths[i],
        cfg.valid_extensions,
    ) by {
        if i == 0 {
            assert(ev.paths[i] == a);
        } else {
            assert(ev.paths[i] == b);
        }
    }
    assert(ev.paths.first() == a);
    assert(ev.paths.last() == b);
    assert(classify_spec(ev, cfg) =~= seq![
        ActionView::Write { path: b },
        ActionView::Delete { path: a },
    ]);
}

/// Law: a removed file with an allowed extension yields exactly one delete.
pub proof fn lemma_classify_removed(p: Seq<char>, cfg: ConfigView)
    requires
        in_scope(p, cfg.valid_extensions),
    ensures
        classify_spec((ChangeEventView { kind: EventKind::Removed, paths: seq![p] }), cfg)
            == seq![ActionView::Delete { path: p }],
{
    let ev = ChangeEventView { kind: EventKind::Removed, paths: seq![p] };
    assert forall|i: int| 0 <= i < ev.paths.len() implies in_scope(
        ev.paths[i],
        cfg.valid_extensions,
    ) by {
        assert(ev.paths[i] == p);
    }
    assert(ev.paths.first() == p);
    assert(classify_spec(ev, cfg) =~= seq![ActionView::Delete { path: p }]);
}

} // verus!
