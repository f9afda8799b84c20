//! State deltas on the wire.
use vstd::prelude::*;
use crate::hash::ContentHash;
use crate::ids::{EffectId, ReceiptId};
use crate::json::{
    Json, JsonMap, Number, NumberView, Value, lemma_values_deep_view, member, put_list, text_values,
    texts_json, with_list,
};
use crate::state::{FileChange, StateDelta};
use crate::text;

verus! {

/// What a [`FileChange`] says.
pub enum ChangeView {
    Added { path: Seq<char>, blob: Seq<char>, mode: u32 },
    Modified { path: Seq<char>, old_blob: Seq<char>, new_blob: Seq<char> },
    Deleted { path: Seq<char>, old_blob: Seq<char> },
}

impl FileChange {
    pub open spec fn view(&self) -> ChangeView {
        match self {
            FileChange::Added { path, blob, mode } => ChangeView::Added {
                path: path@,
                blob: blob@,
                mode: *mode,
            },
            FileChange::Modified { path, old_blob, new_blob } => ChangeView::Modified {
                path: path@,
                old_blob: old_blob@,
                new_blob: new_blob@,
            },
            FileChange::Deleted { path, old_blob } => ChangeView::Deleted {
                path: path@,
                old_blob: old_blob@,
            },
        }
    }
}

impl DeepView for FileChange {
    type V = ChangeView;

    open spec fn deep_view(&self) -> ChangeView {
        self@
    }
}

impl ChangeView {
    /// The path that changed.
    pub open spec fn path(self) -> Seq<char> {
        match self {
            ChangeView::Added { path, .. } => path,
            ChangeView::Modified { path, .. } => path,
            ChangeView::Deleted { path, .. } => path,
        }
    }

    /// The change in JSON.
    pub open spec fn json(self) -> Json {
        match self {
            ChangeView::Added { path, blob, mode } => Json::Object(
                map![
                    "op"@ => Json::Text("added"@),
                    "path"@ => Json::Text(path),
                    "blob"@ => Json::Text(blob),
                    "mode"@ => Json::Number(NumberView::PosInt(mode as u64))
                ],
            ),
            ChangeView::Modified { path, old_blob, new_blob } => Json::Object(
                map![
                    "op"@ => Json::Text("modified"@),
                    "path"@ => Json::Text(path),
                    "old_blob"@ => Json::Text(old_blob),
                    "new_blob"@ => Json::Text(new_blob)
                ],
            ),
            ChangeView::Deleted { path, old_blob } => Json::Object(
                map![
                    "op"@ => Json::Text("deleted"@),
                    "path"@ => Json::Text(path),
                    "old_blob"@ => Json::Text(old_blob)
                ],
            ),
        }
    }
}

/// What a [`StateDelta`] says.
#[verifier::ext_equal]
pub struct DeltaView {
    pub files: Seq<ChangeView>,
    pub processes_started: Seq<Seq<char>>,
    pub processes_exited: Seq<Seq<char>>,
    pub tool_sessions: Seq<Seq<char>>,
    pub policy_epoch: u64,
    pub effects_proposed: Seq<Seq<char>>,
    pub effects_committed: Seq<Seq<char>>,
}

/// Changes in JSON.
pub open spec fn changes_json(s: Seq<ChangeView>) -> Seq<Json> {
    Seq::new(s.len(), |i: int| s[i].json())
}

impl DeltaView {
    /// The delta in JSON. Empty lists are left out.
    pub open spec fn json(self) -> Json {
        let m = map!["policy_epoch"@ => Json::Number(NumberView::PosInt(self.policy_epoch))];
        let m = with_list(m, "files"@, changes_json(self.files));
        let m = with_list(m, "processes_started"@, texts_json(self.processes_started));
        let m = with_list(m, "processes_exited"@, texts_json(self.processes_exited));
        let m = with_list(m, "tool_sessions"@, texts_json(self.tool_sessions));
        let m = with_list(m, "effects_proposed"@, texts_json(self.effects_proposed));
        Json::Object(with_list(m, "effects_committed"@, texts_json(self.effects_committed)))
    }

    /// The delta touches the path.
    pub open spec fn touches(self, path: Seq<char>) -> bool {
        exists|i: int| 0 <= i < self.files.len() && (#[trigger] self.files[i]).path() == path
    }
}

impl StateDelta {
    pub open spec fn view(&self) -> DeltaView {
        DeltaView {
            files: self.files.deep_view(),
            processes_started: self.processes_started.deep_view(),
            processes_exited: self.processes_exited.deep_view(),
            tool_sessions: self.tool_sessions.deep_view(),
            policy_epoch: self.policy_epoch,
            effects_proposed: self.effects_proposed.deep_view(),
            effects_committed: self.effects_committed.deep_view(),
        }
    }
}

/// The text under a key.
pub open spec fn text_at(j: Json, key: Seq<char>) -> Option<Seq<char>> {
    match member(j, key) {
        Some(Json::Text(t)) => Some(t),
        _ => None,
    }
}

/// The change that a JSON value stands for.
pub open spec fn change_in(j: Json) -> Option<ChangeView> {
    match (text_at(j, "op"@), text_at(j, "path"@)) {
        (Some(op), Some(path)) => if op == "added"@ {
            match (text_at(j, "blob"@), member(j, "mode"@)) {
                (Some(blob), Some(Json::Number(NumberView::PosInt(mode)))) => if mode <= u32::MAX {
                    Some(ChangeView::Added { path, blob, mode: mode as u32 })
                } else {
                    None
                },
                _ => None,
            }
        } else if op == "modified"@ {
            match (text_at(j, "old_blob"@), text_at(j, "new_blob"@)) {
                (Some(old_blob), Some(new_blob)) => Some(
                    ChangeView::Modified { path, old_blob, new_blob },
                ),
                _ => None,
            }
        } else if op == "deleted"@ {
            match text_at(j, "old_blob"@) {
                Some(old_blob) => Some(ChangeView::Deleted { path, old_blob }),
                None => None,
            }
        } else {
            None
        },
        _ => None,
    }
}

/// The changes that JSON values stand for; `None` if one stands for none.
pub open spec fn changes_in(items: Seq<Json>) -> Option<Seq<ChangeView>> {
    if forall|i: int| 0 <= i < items.len() ==> change_in(#[trigger] items[i]) is Some {
        Some(Seq::new(items.len(), |i: int| change_in(items[i])->0))
    } else {
        None
    }
}

/// The texts that JSON values are; `None` if one is none.
pub open spec fn texts_in(items: Seq<Json>) -> Option<Seq<Seq<char>>> {
    if forall|i: int| 0 <= i < items.len() ==> (#[trigger] items[i]) is Text {
        Some(Seq::new(items.len(), |i: int| items[i]->Text_0))
    } else {
        None
    }
}

/// The list under a key, the empty one when there is no such member; `None`
/// when the member is no list.
pub open spec fn list_at(m: Map<Seq<char>, Json>, key: Seq<char>) -> Option<Seq<Json>> {
    if !m.contains_key(key) {
        Some(Seq::empty())
    } else {
        match m[key] {
            Json::Array(items) => Some(items),
            _ => None,
        }
    }
}

/// The texts under a key.
pub open spec fn texts_at(m: Map<Seq<char>, Json>, key: Seq<char>) -> Option<Seq<Seq<char>>> {
    match list_at(m, key) {
        Some(items) => texts_in(items),
        None => None,
    }
}

/// The changes under a key.
pub open spec fn changes_at(m: Map<Seq<char>, Json>, key: Seq<char>) -> Option<Seq<ChangeView>> {
    match list_at(m, key) {
        Some(items) => changes_in(items),
        None => None,
    }
}

/// Every list of a delta can be read.
pub open spec fn lists_readable(m: Map<Seq<char>, Json>) -> bool {
    &&& changes_at(m, "files"@) is Some
    &&& texts_at(m, "processes_started"@) is Some
    &&& texts_at(m, "processes_exited"@) is Some
    &&& texts_at(m, "tool_sessions"@) is Some
    &&& texts_at(m, "effects_proposed"@) is Some
    &&& texts_at(m, "effects_committed"@) is Some
}

/// The delta that a JSON value stands for: an object with the policy epoch, in
/// which lists may be missing and members of other names are ignored.
pub open spec fn delta_in(j: Json) -> Option<DeltaView> {
    match j {
        Json::Object(m) => match member(j, "policy_epoch"@) {
            Some(Json::Number(NumberView::PosInt(policy_epoch))) => if lists_readable(m) {
                Some(
                    DeltaView {
                        files: changes_at(m, "files"@)->0,
                        processes_started: texts_at(m, "processes_started"@)->0,
                        processes_exited: texts_at(m, "processes_exited"@)->0,
                        tool_sessions: texts_at(m, "tool_sessions"@)->0,
                        policy_epoch,
                        effects_proposed: texts_at(m, "effects_proposed"@)->0,
                        effects_committed: texts_at(m, "effects_committed"@)->0,
                    },
                )
            } else {
                None
            },
            _ => None,
        },
        _ => None,
    }
}

fn put_texts(m: &mut JsonMap, key: &str, items: &Vec<String>)
    ensures
        final(m)@ == with_list(old(m)@, key@, texts_json(items.deep_view())),
{
    put_list(m, key, text_values(items));
}

fn effect_texts(ids: &Vec<EffectId>) -> (r: Vec<String>)
    ensures
        r.deep_view() == ids.deep_view(),
{
    let mut out: Vec<String> = Vec::new();
    let mut i: usize = 0;
    while i < ids.len()
        invariant
            i <= ids.len(),
            out.len() == i,
            forall|j: int| 0 <= j < i ==> (#[trigger] out@[j])@ == ids@[j]@,
        decreases ids.len() - i,
    {
        out.push(ids[i].as_str().to_owned());
        i = i + 1;
    }
    proof {
        assert(out.deep_view() =~= ids.deep_view());
    }
    out
}

fn receipt_texts(ids: &Vec<ReceiptId>) -> (r: Vec<String>)
    ensures
        r.deep_view() == ids.deep_view(),
{
    let mut out: Vec<String> = Vec::new();
    let mut i: usize = 0;
    while i < ids.len()
        invariant
            i <= ids.len(),
            out.len() == i,
            forall|j: int| 0 <= j < i ==> (#[trigger] out@[j])@ == ids@[j]@,
        decreases ids.len() - i,
    {
        out.push(ids[i].as_str().to_owned());
        i = i + 1;
    }
    proof {
        assert(out.deep_view() =~= ids.deep_view());
    }
    out
}

impl FileChange {
    /// The change in JSON.
    pub fn to_value(&self) -> (r: Value)
        ensures
            r@ == self@.json(),
    {
        let mut m = JsonMap::new();
        match self {
            FileChange::Added { path, blob, mode } => {
                m.insert("op".to_owned(), Value::text("added"));
                m.insert("path".to_owned(), Value::text(path.as_str()));
                m.insert("blob".to_owned(), Value::text(blob.as_str()));
                m.insert("mode".to_owned(), Value::from_u64(*mode as u64));
            },
            FileChange::Modified { path, old_blob, new_blob } => {
                m.insert("op".to_owned(), Value::text("modified"));
                m.insert("path".to_owned(), Value::text(path.as_str()));
                m.insert("old_blob".to_owned(), Value::text(old_blob.as_str()));
                m.insert("new_blob".to_owned(), Value::text(new_blob.as_str()));
            },
            FileChange::Deleted { path, old_blob } => {
                m.insert("op".to_owned(), Value::text("deleted"));
                m.insert("path".to_owned(), Value::text(path.as_str()));
                m.insert("old_blob".to_owned(), Value::text(old_blob.as_str()));
            },
        }
        Value::Object(m)
    }

    /// The change that a JSON value stands for.
    pub fn from_value(v: &Value) -> (r: Option<FileChange>)
        ensures
            r.deep_view() == change_in(v@),
    {
        let op = match read_text(v, "op") {
            Some(t) => t,
            None => {
                return None;
            },
        };
        let path = match read_text(v, "path") {
            Some(t) => t,
            None => {
                return None;
            },
        };
        if text::str_eq(op, "added") {
            let mode: u64 = match v.get("mode") {
                Some(Value::Number(Number::PosInt(n))) => *n,
                _ => {
                    return None;
                },
            };
            match read_text(v, "blob") {
                Some(blob) if mode <= 0xffff_ffff => Some(
                    FileChange::Added {
                        path: path.to_owned(),
                        blob: ContentHash(blob.to_owned()),
                        mode: mode as u32,
                    },
                ),
                _ => None,
            }
        } else if text::str_eq(op, "modified") {
            match (read_text(v, "old_blob"), read_text(v, "new_blob")) {
                (Some(old_blob), Some(new_blob)) => Some(
                    FileChange::Modified {
                        path: path.to_owned(),
                        old_blob: ContentHash(old_blob.to_owned()),
                        new_blob: ContentHash(new_blob.to_owned()),
                    },
                ),
                _ => None,
            }
        } else if text::str_eq(op, "deleted") {
            match read_text(v, "old_blob") {
                Some(old_blob) => Some(
                    FileChange::Deleted {
                        path: path.to_owned(),
                        old_blob: ContentHash(old_blob.to_owned()),
                    },
                ),
                None => None,
            }
        } else {
            None
        }
    }
}

fn read_text<'a>(v: &'a Value, key: &str) -> (r: Option<&'a str>)
    ensures
        match r {
            Some(t) => text_at(v@, key@) == Some(t@),
            None => text_at(v@, key@) is None,
        },
{
    match v.get(key) {
        Some(Value::Text(t)) => Some(t.as_str()),
        _ => None,
    }
}

fn read_texts(m: &JsonMap, key: &str) -> (r: Option<Vec<String>>)
    ensures
        match r {
            Some(v) => texts_at(m@, key@) == Some(v.deep_view()),
            None => texts_at(m@, key@) is None,
        },
{
    let items = match m.get(key) {
        None => {
            let out: Vec<String> = Vec::new();
            proof {
                let none = Seq::<Json>::empty();
                assert(texts_in(none)->0 =~= Seq::<Seq<char>>::empty());
                assert(out.deep_view() =~= Seq::<Seq<char>>::empty());
            }
            return Some(out);
        },
        Some(Value::Array(items)) => items,
        Some(_) => {
            return None;
        },
    };
    proof {
        broadcast use lemma_values_deep_view;

        assert(crate::json::values_seq(items@) == items.deep_view());
    }
    let ghost js = items.deep_view();
    let mut out: Vec<String> = Vec::new();
    let mut i: usize = 0;
    while i < items.len()
        invariant
            i <= items.len(),
            js == items.deep_view(),
            list_at(m@, key@) == Some(js),
            out.len() == i,
            forall|j: int|
                0 <= j < i ==> (#[trigger] js[j]) is Text && out.deep_view()[j] == js[j]->Text_0,
        decreases items.len() - i,
    {
        proof {
            assert(js[i as int] == items@[i as int]@);
        }
        match &items[i] {
            Value::Text(t) => {
                out.push(t.clone());
            },
            _ => {
                return None;
            },
        }
        i = i + 1;
    }
    proof {
        assert(texts_in(js)->0 =~= out.deep_view());
    }
    Some(out)
}

fn read_changes(m: &JsonMap, key: &str) -> (r: Option<Vec<FileChange>>)
    ensures
        match r {
            Some(v) => changes_at(m@, key@) == Some(v.deep_view()),
            None => changes_at(m@, key@) is None,
        },
{
    let items = match m.get(key) {
        None => {
            let out: Vec<FileChange> = Vec::new();
            proof {
                let none = Seq::<Json>::empty();
                assert(changes_in(none)->0 =~= Seq::<ChangeView>::empty());
                assert(out.deep_view() =~= Seq::<ChangeView>::empty());
            }
            return Some(out);
        },
        Some(Value::Array(items)) => items,
        Some(_) => {
            return None;
        },
    };
    proof {
        broadcast use lemma_values_deep_view;

        assert(crate::json::values_seq(items@) == items.deep_view());
    }
    let ghost js = items.deep_view();
    let mut out: Vec<FileChange> = Vec::new();
    let mut i: usize = 0;
    while i < items.len()
        invariant
            i <= items.len(),
            js == items.deep_view(),
            list_at(m@, key@) == Some(js),
            out.len() == i,
            forall|j: int|
                0 <= j < i ==> change_in(#[trigger] js[j]) is Some && out.deep_view()[j]
                    == change_in(js[j])->0,
        decreases items.len() - i,
    {
        proof {
            assert(js[i as int] == items@[i as int]@);
        }
        match FileChange::from_value(&items[i]) {
            Some(c) => {
                out.push(c);
            },
            None => {
                return None;
            },
        }
        i = i + 1;
    }
    proof {
        assert(changes_in(js)->0 =~= out.deep_view());
    }
    Some(out)
}

fn effect_ids(v: Vec<String>) -> (r: Vec<EffectId>)
    ensures
        r.deep_view() == v.deep_view(),
{
    let mut out: Vec<EffectId> = Vec::new();
    let mut i: usize = 0;
    while i < v.len()
        invariant
            i <= v.len(),
            out.len() == i,
            forall|j: int| 0 <= j < i ==> (#[trigger] out@[j])@ == v@[j]@,
        decreases v.len() - i,
    {
        out.push(EffectId(v[i].clone()));
        i = i + 1;
    }
    proof {
        assert(out.deep_view() =~= v.deep_view());
    }
    out
}

fn receipt_ids(v: Vec<String>) -> (r: Vec<ReceiptId>)
    ensures
        r.deep_view() == v.deep_view(),
{
    let mut out: Vec<ReceiptId> = Vec::new();
    let mut i: usize = 0;
    while i < v.len()
        invariant
            i <= v.len(),
            out.len() == i,
            forall|j: int| 0 <= j < i ==> (#[trigger] out@[j])@ == v@[j]@,
        decreases v.len() - i,
    {
        out.push(ReceiptId(v[i].clone()));
        i = i + 1;
    }
    proof {
        assert(out.deep_view() =~= v.deep_view());
    }
    out
}

impl StateDelta {
    /// The delta in JSON.
    pub fn to_value(&self) -> (r: Value)
        ensures
            r@ == self@.json(),
    {
        let mut m = JsonMap::new();
        m.insert("policy_epoch".to_owned(), Value::from_u64(self.policy_epoch));
        if self.files.len() > 0 {
            let mut vs: Vec<Value> = Vec::new();
            let ghost cs = self.files.deep_view();
            let mut i: usize = 0;
            proof {
                assert(vs.deep_view() =~= changes_json(cs).take(0));
            }
            while i < self.files.len()
                invariant
                    i <= self.files.len(),
                    cs == self.files.deep_view(),
                    vs.deep_view() == changes_json(cs).take(i as int),
                decreases self.files.len() - i,
            {
                let ghost before = vs.deep_view();
                vs.push(self.files[i].to_value());
                proof {
                    assert(cs[i as int] == self.files@[i as int]@);
                    assert(vs.deep_view() =~= before.push(cs[i as int].json()));
                    assert(changes_json(cs).take(i + 1) =~= changes_json(cs).take(i as int).push(
                        changes_json(cs)[i as int],
                    ));
                }
                i = i + 1;
            }
            proof {
                assert(changes_json(cs).take(cs.len() as int) =~= changes_json(cs));
                broadcast use lemma_values_deep_view;

                assert(crate::json::values_seq(vs@) == vs.deep_view());
            }
            m.insert("files".to_owned(), Value::Array(vs));
        }
        put_texts(&mut m, "processes_started", &self.processes_started);
        put_texts(&mut m, "processes_exited", &self.processes_exited);
        put_texts(&mut m, "tool_sessions", &self.tool_sessions);
        let proposed = effect_texts(&self.effects_proposed);
        put_texts(&mut m, "effects_proposed", &proposed);
        let committed = receipt_texts(&self.effects_committed);
        put_texts(&mut m, "effects_committed", &committed);
        Value::Object(m)
    }

    /// The delta that a JSON value stands for.
    pub fn from_value(v: &Value) -> (r: Option<StateDelta>)
        ensures
            match r {
                Some(d) => delta_in(v@) == Some(d@),
                None => delta_in(v@) is None,
            },
    {
        let m = match v {
            Value::Object(m) => m,
            _ => {
                return None;
            },
        };
        let policy_epoch: u64 = match m.get("policy_epoch") {
            Some(Value::Number(Number::PosInt(n))) => *n,
            _ => {
                return None;
            },
        };
        let files = match read_changes(m, "files") {
            Some(x) => x,
            None => {
                return None;
            },
        };
        let processes_started = match read_texts(m, "processes_started") {
            Some(x) => x,
            None => {
                return None;
            },
        };
        let processes_exited = match read_texts(m, "processes_exited") {
            Some(x) => x,
            None => {
                return None;
            },
        };
        let tool_sessions = match read_texts(m, "tool_sessions") {
            Some(x) => x,
            None => {
                return None;
            },
        };
        let effects_proposed = match read_texts(m, "effects_proposed") {
            Some(x) => effect_ids(x),
            None => {
                return None;
            },
        };
        let effects_committed = match read_texts(m, "effects_committed") {
            Some(x) => receipt_ids(x),
            None => {
                return None;
            },
        };
        Some(
            StateDelta {
                files,
                processes_started,
                processes_exited,
                tool_sessions,
                policy_epoch,
                effects_proposed,
                effects_committed,
            },
        )
    }

    /// Whether the delta touches the path.
    pub fn touches(&self, path: &str) -> (r: bool)
        ensures
            r == self@.touches(path@),
    {
        let ghost cs = self.files.deep_view();
        let mut i: usize = 0;
        while i < self.files.len()
            invariant
                i <= self.files.len(),
                cs == self.files.deep_view(),
                forall|j: int| 0 <= j < i ==> (#[trigger] cs[j]).path() != path@,
            decreases self.files.len() - i,
        {
            proof {
                assert(cs[i as int] == self.files@[i as int]@);
            }
            if text::str_eq(self.files[i].path(), path) {
                proof {
                    assert(self@.files[i as int].path() == path@);
                }
                return true;
            }
            i = i + 1;
        }
        false
    }
}

proof fn lemma_change_round_trip(c: ChangeView)
    ensures
        change_in(c.json()) == Some(c),
{
    reveal_strlit("op");
    reveal_strlit("path");
    reveal_strlit("blob");
    reveal_strlit("mode");
    reveal_strlit("old_blob");
    reveal_strlit("new_blob");
    reveal_strlit("added");
    reveal_strlit("modified");
    reveal_strlit("deleted");
    assert("added"@[0] != "modified"@[0]);
    assert("added"@[0] != "deleted"@[0]);
    assert("modified"@[0] != "deleted"@[0]);
    assert("op"@[0] != "path"@[0]);
    assert("op"@.len() != "old_blob"@.len());
    assert("blob"@[0] != "mode"@[0]);
    assert("blob"@[0] != "path"@[0]);
    assert("mode"@[0] != "path"@[0]);
    assert("old_blob"@[0] != "new_blob"@[0]);
    assert("old_blob"@.len() != "path"@.len());
}

proof fn lemma_lists_round_trip(cs: Seq<ChangeView>, ts: Seq<Seq<char>>)
    ensures
        changes_in(changes_json(cs)) == Some(cs),
        texts_in(texts_json(ts)) == Some(ts),
{
    assert forall|i: int| 0 <= i < cs.len() implies change_in(#[trigger] changes_json(cs)[i])
        == Some(cs[i]) by {
        lemma_change_round_trip(cs[i]);
    }
    assert(changes_in(changes_json(cs))->0 =~= cs);
    assert(texts_in(texts_json(ts))->0 =~= ts);
}

/// Reading a delta gives back what was written.
pub proof fn law_delta_round_trip(d: DeltaView)
    ensures
        delta_in(d.json()) == Some(d),
{
    reveal_strlit("policy_epoch");
    reveal_strlit("files");
    reveal_strlit("processes_started");
    reveal_strlit("processes_exited");
    reveal_strlit("tool_sessions");
    reveal_strlit("effects_proposed");
    reveal_strlit("effects_committed");
    assert("policy_epoch"@.len() == 12);
    assert("files"@.len() == 5);
    assert("processes_started"@.len() == 17);
    assert("processes_exited"@.len() == 16 && "effects_proposed"@.len() == 16);
    assert("processes_exited"@[0] != "effects_proposed"@[0]);
    assert("tool_sessions"@.len() == 13);
    assert("effects_committed"@.len() == 17);
    assert("processes_started"@[0] != "effects_committed"@[0]);
    lemma_lists_round_trip(d.files, d.processes_started);
    lemma_lists_round_trip(d.files, d.processes_exited);
    lemma_lists_round_trip(d.files, d.tool_sessions);
    lemma_lists_round_trip(d.files, d.effects_proposed);
    lemma_lists_round_trip(d.files, d.effects_committed);
    let none = Seq::<Json>::empty();
    assert(texts_in(none)->0 =~= Seq::<Seq<char>>::empty());
    assert(changes_in(none)->0 =~= Seq::<ChangeView>::empty());
    let m = d.json()->Object_0;
    let empty = Seq::<Seq<char>>::empty();
    assert(changes_at(m, "files"@) == Some(d.files)) by {
        if d.files.len() == 0 {
            assert(d.files =~= Seq::<ChangeView>::empty());
        }
    }
    assert(texts_at(m, "processes_started"@) == Some(d.processes_started)) by {
        if d.processes_started.len() == 0 {
            assert(d.processes_started =~= empty);
        }
    }
    assert(texts_at(m, "processes_exited"@) == Some(d.processes_exited)) by {
        if d.processes_exited.len() == 0 {
            assert(d.processes_exited =~= empty);
        }
    }
    assert(texts_at(m, "tool_sessions"@) == Some(d.tool_sessions)) by {
        if d.tool_sessions.len() == 0 {
            assert(d.tool_sessions =~= empty);
        }
    }
    assert(texts_at(m, "effects_proposed"@) == Some(d.effects_proposed)) by {
        if d.effects_proposed.len() == 0 {
            assert(d.effects_proposed =~= empty);
        }
    }
    assert(texts_at(m, "effects_committed"@) == Some(d.effects_committed)) by {
        if d.effects_committed.len() == 0 {
            assert(d.effects_committed =~= empty);
        }
    }
}

/// In JSON every part of a change stands under its own name.
pub proof fn law_changes_have_their_names(c: ChangeView)
    ensures
        c matches ChangeView::Added { path, blob, mode } ==> member(c.json(), "op"@) == Some(
            Json::Text("added"@),
        ) && member(c.json(), "path"@) == Some(Json::Text(path)) && member(c.json(), "blob"@)
            == Some(Json::Text(blob)) && member(c.json(), "mode"@) == Some(
            Json::Number(NumberView::PosInt(mode as u64)),
        ),
        c matches ChangeView::Modified { path, old_blob, new_blob } ==> member(c.json(), "op"@)
            == Some(Json::Text("modified"@)) && member(c.json(), "path"@) == Some(Json::Text(path))
            && member(c.json(), "old_blob"@) == Some(Json::Text(old_blob)) && member(
            c.json(),
            "new_blob"@,
        ) == Some(Json::Text(new_blob)),
        c matches ChangeView::Deleted { path, old_blob } ==> member(c.json(), "op"@) == Some(
            Json::Text("deleted"@),
        ) && member(c.json(), "path"@) == Some(Json::Text(path)) && member(c.json(), "old_blob"@)
            == Some(Json::Text(old_blob)),
        c matches ChangeView::Added { path, .. } ==> c.path() == path,
        c matches ChangeView::Modified { path, .. } ==> c.path() == path,
        c matches ChangeView::Deleted { path, .. } ==> c.path() == path,
{
    reveal_strlit("op");
    reveal_strlit("path");
    reveal_strlit("blob");
    reveal_strlit("mode");
    reveal_strlit("old_blob");
    reveal_strlit("new_blob");
    assert("op"@.len() == 2 && "path"@.len() == 4 && "blob"@.len() == 4 && "mode"@.len() == 4);
    assert("old_blob"@.len() == 8 && "new_blob"@.len() == 8);
    assert("path"@[0] == 'p' && "blob"@[0] == 'b' && "mode"@[0] == 'm');
    assert("old_blob"@[0] == 'o' && "new_blob"@[0] == 'n');
}

/// In JSON every list of a delta that is not empty stands under its own name, with the
/// policy epoch.
pub proof fn law_delta_lists_have_their_names(d: DeltaView)
    ensures
        d.json() matches Json::Object(m) && {
            &&& m.contains_key("policy_epoch"@) && m["policy_epoch"@] == Json::Number(
                NumberView::PosInt(d.policy_epoch),
            )
            &&& m.contains_key("files"@) <==> d.files.len() > 0
            &&& d.files.len() > 0 ==> m["files"@] == Json::Array(changes_json(d.files))
            &&& m.contains_key("processes_started"@) <==> d.processes_started.len() > 0
            &&& d.processes_started.len() > 0 ==> m["processes_started"@] == Json::Array(
                texts_json(d.processes_started),
            )
            &&& m.contains_key("processes_exited"@) <==> d.processes_exited.len() > 0
            &&& d.processes_exited.len() > 0 ==> m["processes_exited"@] == Json::Array(
                texts_json(d.processes_exited),
            )
            &&& m.contains_key("tool_sessions"@) <==> d.tool_sessions.len() > 0
            &&& d.tool_sessions.len() > 0 ==> m["tool_sessions"@] == Json::Array(
                texts_json(d.tool_sessions),
            )
            &&& m.contains_key("effects_proposed"@) <==> d.effects_proposed.len() > 0
            &&& d.effects_proposed.len() > 0 ==> m["effects_proposed"@] == Json::Array(
                texts_json(d.effects_proposed),
            )
            &&& m.contains_key("effects_committed"@) <==> d.effects_committed.len() > 0
            &&& d.effects_committed.len() > 0 ==> m["effects_committed"@] == Json::Array(
                texts_json(d.effects_committed),
            )
        },
{
    reveal_strlit("policy_epoch");
    reveal_strlit("files");
    reveal_strlit("processes_started");
    reveal_strlit("processes_exited");
    reveal_strlit("tool_sessions");
    reveal_strlit("effects_proposed");
    reveal_strlit("effects_committed");
    assert("policy_epoch"@.len() == 12 && "files"@.len() == 5 && "processes_started"@.len() == 17);
    assert("processes_exited"@.len() == 16 && "tool_sessions"@.len() == 13);
    assert("effects_proposed"@.len() == 16 && "effects_committed"@.len() == 17);
    assert("processes_started"@[0] == 'p' && "effects_committed"@[0] == 'e');
    assert("processes_exited"@[0] == 'p' && "effects_proposed"@[0] == 'e');
}

/// A delta touches exactly the paths of its changes.
pub proof fn law_deltas_touch_the_paths_they_change(
    files: Seq<ChangeView>,
    change: ChangeView,
    d: DeltaView,
    path: Seq<char>,
)
    requires
        d.files == files.push(change),
    ensures
        d.touches(path) <==> (DeltaView { files, ..d }).touches(path) || change.path() == path,
{
    let e = DeltaView { files, ..d };
    if change.path() == path {
        assert(d.files[files.len() as int].path() == path);
    }
    if e.touches(path) {
        let i = choose|i: int| 0 <= i < e.files.len() && (#[trigger] e.files[i]).path() == path;
        assert(d.files[i] == e.files[i]);
    }
    if d.touches(path) {
        let i = choose|i: int| 0 <= i < d.files.len() && (#[trigger] d.files[i]).path() == path;
        if i < files.len() {
            assert(e.files[i] == d.files[i]);
        }
    }
}

/// A delta is read whole or not at all: without its policy epoch, or with a list that
/// is none or holds anything but texts or changes, it is not read.
pub proof fn law_broken_deltas_are_not_read(m: Map<Seq<char>, Json>, key: Seq<char>, i: int)
    requires
        key == "processes_started"@ || key == "processes_exited"@ || key == "tool_sessions"@ || key
            == "effects_proposed"@ || key == "effects_committed"@,
    ensures
        m.contains_key(key) && !(m[key] is Array) ==> delta_in(Json::Object(m)) is None,
        m.contains_key(key) && (m[key] matches Json::Array(a) && 0 <= i < a.len() && !(a[i]
            is Text)) ==> delta_in(Json::Object(m)) is None,
        m.contains_key("files"@) && !(m["files"@] is Array) ==> delta_in(Json::Object(m)) is None,
        m.contains_key("files"@) && (m["files"@] matches Json::Array(a) && 0 <= i < a.len()
            && change_in(a[i]) is None) ==> delta_in(Json::Object(m)) is None,
        !m.contains_key("policy_epoch"@) ==> delta_in(Json::Object(m)) is None,
{
    if m.contains_key(key) && m[key] is Array {
        let a = m[key]->Array_0;
        if 0 <= i < a.len() && !(a[i] is Text) {
            assert(texts_in(a) is None);
        }
    }
    if m.contains_key("files"@) && m["files"@] is Array {
        let a = m["files"@]->Array_0;
        if 0 <= i < a.len() && change_in(a[i]) is None {
            assert(changes_in(a) is None);
        }
    }
}

} // verus!
