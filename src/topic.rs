use vstd::prelude::*;

use crate::ids::{MqttId, SensorId, MetricId, id_text, is_id_text, hex_value, hex_text, lemma_hex_text};

verus! {

/// A fixed level of a topic template.
#[derive(Clone, Copy, Debug, PartialEq, Eq, Structural)]
pub enum Word {
    Sensor,
    List,
    Create,
    Update,
    Delete,
    Metric,
    Inventory,
    Inbox,
    Info,
    Error,
    PushValues,
    Ping,
    Livedata,
}

pub open spec fn word_chars(w: Word) -> Seq<char> {
    match w {
        Word::Sensor => "sensor"@,
        Word::List => "list"@,
        Word::Create => "create"@,
        Word::Update => "update"@,
        Word::Delete => "delete"@,
        Word::Metric => "metric"@,
        Word::Inventory => "inventory"@,
        Word::Inbox => "inbox"@,
        Word::Info => "info"@,
        Word::Error => "error"@,
        Word::PushValues => "pushValues"@,
        Word::Ping => "ping"@,
        Word::Livedata => "livedata"@,
    }
}

pub fn word_text(w: Word) -> (r: &'static str)
    ensures
        r@ == word_chars(w),
{
    match w {
        Word::Sensor => "sensor",
        Word::List => "list",
        Word::Create => "create",
        Word::Update => "update",
        Word::Delete => "delete",
        Word::Metric => "metric",
        Word::Inventory => "inventory",
        Word::Inbox => "inbox",
        Word::Info => "info",
        Word::Error => "error",
        Word::PushValues => "pushValues",
        Word::Ping => "ping",
        Word::Livedata => "livedata",
    }
}

pub open spec fn has_no_slash(s: Seq<char>) -> bool {
    forall|i: int| 0 <= i < s.len() ==> s[i] != '/'
}

/// A word is a non-empty level of its own, and never reads as an identifier.
pub proof fn lemma_word(w: Word)
    ensures
        has_no_slash(word_chars(w)),
        !is_id_text(word_chars(w)),
        word_chars(w).len() > 0,
{
    reveal_strlit("sensor");
    reveal_strlit("list");
    reveal_strlit("create");
    reveal_strlit("update");
    reveal_strlit("delete");
    reveal_strlit("metric");
    reveal_strlit("inventory");
    reveal_strlit("inbox");
    reveal_strlit("info");
    reveal_strlit("error");
    reveal_strlit("pushValues");
    reveal_strlit("ping");
    reveal_strlit("livedata");
}

/// The level that stands for an identifier in a template and in a pattern.
pub open spec fn placeholder() -> Seq<char> {
    ":mqttid:"@
}

pub proof fn lemma_placeholder()
    ensures
        has_no_slash(placeholder()),
        !is_id_text(placeholder()),
{
    reveal_strlit(":mqttid:");
}

/// One level of a template: a fixed word, or an identifier parameter.
#[derive(Clone, Copy, Debug, PartialEq, Eq, Structural)]
pub enum Level {
    Word(Word),
    Param,
}

/// Which of the three topics of an operation.
#[derive(Clone, Copy, Debug, PartialEq, Eq, Structural)]
pub enum Role {
    Action,
    Success,
    Error,
}

/// Joins levels with `/`.
pub open spec fn join(x: Seq<Seq<char>>) -> Seq<char>
    decreases x.len(),
{
    if x.len() == 0 {
        Seq::empty()
    } else if x.len() == 1 {
        x[0]
    } else {
        join(x.drop_last()).push('/') + x.last()
    }
}

pub open spec fn level_pattern(l: Level) -> Seq<char> {
    match l {
        Level::Word(w) => word_chars(w),
        Level::Param => placeholder(),
    }
}

/// Number of parameters among the first `j` levels.
pub open spec fn params_before(t: Seq<Level>, j: int) -> nat
    decreases j,
{
    if j <= 0 {
        0
    } else {
        params_before(t, j - 1) + if t[j - 1] is Param {
            1nat
        } else {
            0nat
        }
    }
}

pub open spec fn param_count(t: Seq<Level>) -> nat {
    params_before(t, t.len() as int)
}

/// The template text: the levels with `:mqttid:` for each parameter.
pub open spec fn pattern_text(t: Seq<Level>) -> Seq<char> {
    join(Seq::new(t.len(), |j: int| level_pattern(t[j])))
}

/// The levels of a topic: each parameter filled with the next identifier.
pub open spec fn rendered_levels(t: Seq<Level>, ids: Seq<MqttId>) -> Seq<Seq<char>> {
    Seq::new(
        t.len(),
        |j: int|
            match t[j] {
                Level::Word(w) => word_chars(w),
                Level::Param => id_text(ids[params_before(t, j) as int].value),
            },
    )
}

pub open spec fn render_text(t: Seq<Level>, ids: Seq<MqttId>) -> Seq<char> {
    join(rendered_levels(t, ids))
}

/// One supported operation, with the identifiers it addresses.
#[derive(Clone, Copy, Debug, PartialEq, Eq, Structural)]
pub enum MqttScheme {
    SensorList,
    SensorCreate,
    SensorUpdate(SensorId),
    SensorDelete(SensorId),
    MetricDescribe(SensorId, MetricId),
    MetricCreate(SensorId),
    MetricUpdate(SensorId),
    MetricDelete(SensorId),
    PushValues(SensorId),
    Ping,
}

/// The identifiers of an operation, in template order.
pub open spec fn scheme_ids(s: MqttScheme) -> Seq<MqttId> {
    match s {
        MqttScheme::SensorUpdate(a) => seq![a],
        MqttScheme::SensorDelete(a) => seq![a],
        MqttScheme::MetricDescribe(a, b) => seq![a, b],
        MqttScheme::MetricCreate(a) => seq![a],
        MqttScheme::MetricUpdate(a) => seq![a],
        MqttScheme::MetricDelete(a) => seq![a],
        MqttScheme::PushValues(a) => seq![a],
        _ => seq![],
    }
}

/// The operation of the same kind as `s`, addressing `ids`.
pub open spec fn with_ids_spec(s: MqttScheme, ids: Seq<MqttId>) -> MqttScheme {
    match s {
        MqttScheme::SensorUpdate(_) => MqttScheme::SensorUpdate(ids[0]),
        MqttScheme::SensorDelete(_) => MqttScheme::SensorDelete(ids[0]),
        MqttScheme::MetricDescribe(_, _) => MqttScheme::MetricDescribe(ids[0], ids[1]),
        MqttScheme::MetricCreate(_) => MqttScheme::MetricCreate(ids[0]),
        MqttScheme::MetricUpdate(_) => MqttScheme::MetricUpdate(ids[0]),
        MqttScheme::MetricDelete(_) => MqttScheme::MetricDelete(ids[0]),
        MqttScheme::PushValues(_) => MqttScheme::PushValues(ids[0]),
        _ => s,
    }
}

pub open spec fn tail3(role: Role, a: Seq<Level>, s: Seq<Level>, e: Seq<Level>) -> Seq<Level> {
    match role {
        Role::Action => a,
        Role::Success => s,
        Role::Error => e,
    }
}

/// The template of each operation and role.
pub open spec fn template(s: MqttScheme, role: Role) -> Seq<Level> {
    let (sn, p, m, inb, inf, er) = (
        Level::Word(Word::Sensor),
        Level::Param,
        Level::Word(Word::Metric),
        Level::Word(Word::Inbox),
        Level::Word(Word::Info),
        Level::Word(Word::Error),
    );
    match s {
        MqttScheme::SensorList => tail3(
            role,
            seq![sn, Level::Word(Word::List)],
            seq![Level::Word(Word::Inventory), inb],
            seq![Level::Word(Word::Inventory), er, inb],
        ),
        MqttScheme::SensorCreate => tail3(
            role,
            seq![sn, Level::Word(Word::Create)],
            seq![sn, inb],
            seq![sn, er, inb],
        ),
        MqttScheme::SensorUpdate(_) => tail3(
            role,
            seq![sn, p, Level::Word(Word::Update)],
            seq![sn, p, Level::Word(Word::Update), inf, inb],
            seq![sn, p, Level::Word(Word::Update), er, inb],
        ),
        MqttScheme::SensorDelete(_) => tail3(
            role,
            seq![sn, p, Level::Word(Word::Delete)],
            seq![sn, p, Level::Word(Word::Delete), inf, inb],
            seq![sn, p, Level::Word(Word::Delete), er, inb],
        ),
        MqttScheme::MetricDescribe(_, _) => tail3(
            role,
            seq![sn, p, m, p, Level::Word(Word::Inventory)],
            seq![sn, p, m, p, Level::Word(Word::Inventory), inb],
            seq![sn, p, m, p, Level::Word(Word::Inventory), er, inb],
        ),
        MqttScheme::MetricCreate(_) => tail3(
            role,
            seq![sn, p, m, Level::Word(Word::Create)],
            seq![sn, p, m, inb],
            seq![sn, p, m, er, inb],
        ),
        MqttScheme::MetricUpdate(_) => tail3(
            role,
            seq![sn, p, m, Level::Word(Word::Update)],
            seq![sn, p, m, Level::Word(Word::Update), inf, inb],
            seq![sn, p, m, Level::Word(Word::Update), er, inb],
        ),
        MqttScheme::MetricDelete(_) => tail3(
            role,
            seq![sn, p, m, Level::Word(Word::Delete)],
            seq![sn, p, m, Level::Word(Word::Delete), inf, inb],
            seq![sn, p, m, Level::Word(Word::Delete), er, inb],
        ),
        MqttScheme::PushValues(_) => tail3(
            role,
            seq![sn, p, m, Level::Word(Word::PushValues)],
            seq![sn, p, inf, inb],
            seq![sn, p, er, inb],
        ),
        MqttScheme::Ping => tail3(
            role,
            seq![Level::Word(Word::Ping)],
            seq![Level::Word(Word::Ping), inf, inb],
            seq![Level::Word(Word::Ping), er, inb],
        ),
    }
}

/// The template of the passively pushed livedata event, outside the
/// request/response operations.
pub open spec fn livedata_template() -> Seq<Level> {
    seq![Level::Word(Word::Sensor), Level::Param, Level::Word(Word::Livedata)]
}

/// The topic of operation `s` in role `role`.
pub open spec fn topic_text(s: MqttScheme, role: Role) -> Seq<char> {
    render_text(template(s, role), scheme_ids(s))
}

/// The template text of operation `s` in role `role`.
pub open spec fn template_text(s: MqttScheme, role: Role) -> Seq<char> {
    pattern_text(template(s, role))
}

#[verifier::rlimit(100)]
pub proof fn lemma_template_params(s: MqttScheme, role: Role)
    ensures
        param_count(template(s, role)) == scheme_ids(s).len(),
{
    let t = template(s, role);
    reveal_with_fuel(params_before, 8);
    match role {
        Role::Action => {
            assert(param_count(t) == scheme_ids(s).len());
        },
        Role::Success => {
            assert(param_count(t) == scheme_ids(s).len());
        },
        Role::Error => {
            assert(param_count(t) == scheme_ids(s).len());
        },
    }
}

pub open spec fn level_text_of(l: Level, ids: Seq<MqttId>, k: nat) -> Seq<char> {
    match l {
        Level::Word(w) => word_chars(w),
        Level::Param => id_text(ids[k as int].value),
    }
}

proof fn lemma_join_step(x: Seq<Seq<char>>, j: int)
    requires
        1 <= j < x.len(),
    ensures
        join(x.take(j + 1)) == join(x.take(j)).push('/') + x[j],
{
    assert(x.take(j + 1).drop_last() == x.take(j));
}

proof fn lemma_params_take(t: Seq<Level>, u: Seq<Level>, j: int)
    requires
        0 <= j <= u.len() <= t.len(),
        forall|i: int| 0 <= i < u.len() ==> u[i] == t[i],
    ensures
        params_before(u, j) == params_before(t, j),
    decreases j,
{
    if j > 0 {
        lemma_params_take(t, u, j - 1);
    }
}

/// Writes the levels of template `t` separated by `/`, each parameter filled
/// with the text of the next of `ids`.
fn render_levels(t: &Vec<Level>, ids: &Vec<MqttId>) -> (r: String)
    requires
        param_count(t@) <= ids@.len(),
    ensures
        r@ == render_text(t@, ids@),
{
    let mut out = String::new();
    let ids_len = ids.len();
    let mut k: usize = 0;
    let mut j: usize = 0;
    let ghost full = rendered_levels(t@, ids@);
    proof {
        assert(full.take(0) =~= Seq::<Seq<char>>::empty());
    }
    while j < t.len()
        invariant
            0 <= j <= t@.len(),
            full == rendered_levels(t@, ids@),
            param_count(t@) <= ids@.len(),
            ids_len == ids@.len(),
            k == params_before(t@, j as int),
            out@ == join(full.take(j as int)),
        decreases t@.len() - j,
    {
        proof {
            lemma_params_take(t@, t@, j as int);
            assert(params_before(t@, j as int) <= param_count(t@)) by {
                lemma_params_mono(t@, j as int, t@.len() as int);
            }
        }
        if j > 0 {
            out.append("/");
        }
        match t[j] {
            Level::Word(w) => {
                out.append(word_text(w));
            },
            Level::Param => {
                proof {
                    lemma_params_mono(t@, j as int + 1, t@.len() as int);
                }
                assert(k < ids@.len());
                let text = ids[k].to_text();
                out.append(text.as_str());
                k = k + 1;
            },
        }
        proof {
            reveal_strlit("/");
            assert(full[j as int] == level_text_of(t@[j as int], ids@, params_before(t@, j as int)));
            if j > 0 {
                lemma_join_step(full, j as int);
            } else {
                assert(full.take(1) =~= seq![full[0]]);
                assert(out@ =~= full[0]);
            }
        }
        j += 1;
    }
    proof {
        assert(full.take(t@.len() as int) =~= full);
    }
    out
}

proof fn lemma_params_mono(t: Seq<Level>, i: int, j: int)
    requires
        0 <= i <= j <= t.len(),
    ensures
        params_before(t, i) <= params_before(t, j),
        i < j && t[i] is Param ==> params_before(t, i) + 1 <= params_before(t, j),
    decreases j - i,
{
    if i < j {
        lemma_params_mono(t, i, j - 1);
        if i == j - 1 {
        }
    }
}


/// The levels of a topic: the runs between `/` separators.
pub open spec fn split(s: Seq<char>) -> Seq<Seq<char>>
    decreases s.len(),
{
    if s.len() == 0 {
        seq![Seq::empty()]
    } else {
        let r = split(s.drop_last());
        if s.last() == '/' {
            r.push(Seq::empty())
        } else {
            r.update(r.len() - 1, r.last().push(s.last()))
        }
    }
}

/// How a level reads in a pattern: an identifier becomes `:mqttid:`.
pub open spec fn level_pat(l: Seq<char>) -> Seq<char> {
    if is_id_text(l) {
        placeholder()
    } else {
        l
    }
}

/// The identifiers among the levels, in order.
pub open spec fn level_ids(x: Seq<Seq<char>>) -> Seq<MqttId>
    decreases x.len(),
{
    if x.len() == 0 {
        Seq::empty()
    } else {
        let r = level_ids(x.drop_last());
        if is_id_text(x.last()) {
            r.push(MqttId { value: hex_value(x.last()) as u128 })
        } else {
            r
        }
    }
}

pub open spec fn pats(x: Seq<Seq<char>>) -> Seq<Seq<char>> {
    Seq::new(x.len(), |j: int| level_pat(x[j]))
}

/// What a topic reads as: its identifiers, and its pattern with `:mqttid:`
/// in place of each identifier level.
pub open spec fn parse_topic(s: Seq<char>) -> (Seq<MqttId>, Seq<char>) {
    (level_ids(split(s)), join(pats(split(s))))
}

/// Each level followed by `/`.
pub open spec fn join_open(x: Seq<Seq<char>>) -> Seq<char>
    decreases x.len(),
{
    if x.len() == 0 {
        Seq::empty()
    } else {
        (join_open(x.drop_last()) + x.last()).push('/')
    }
}

proof fn lemma_join_open(x: Seq<Seq<char>>, y: Seq<char>)
    ensures
        join(x.push(y)) == join_open(x) + y,
    decreases x.len(),
{
    if x.len() == 0 {
        assert(join_open(x) =~= Seq::<char>::empty());
        assert(x.push(y).len() == 1);
        assert(join_open(x) + y =~= y);
    } else {
        let z = x.drop_last();
        lemma_join_open(z, x.last());
        assert(z.push(x.last()) =~= x);
        assert(x.push(y).drop_last() =~= x);
        assert(join(x.push(y)) == join(x).push('/') + y);
        assert(join_open(x) == (join_open(z) + x.last()).push('/'));
        assert(join(x.push(y)) =~= join_open(x) + y);
    }
}

proof fn lemma_split_ne(s: Seq<char>)
    ensures
        split(s).len() >= 1,
    decreases s.len(),
{
    if s.len() > 0 {
        lemma_split_ne(s.drop_last());
    }
}

proof fn lemma_split_append(p: Seq<char>, y: Seq<char>)
    requires
        has_no_slash(y),
    ensures
        split(p + y) == split(p).update(split(p).len() - 1, split(p).last() + y),
    decreases y.len(),
{
    lemma_split_ne(p);
    if y.len() == 0 {
        assert(p + y =~= p);
        assert(split(p).last() + y =~= split(p).last());
        assert(split(p).update(split(p).len() - 1, split(p).last()) =~= split(p));
    } else {
        let y0 = y.drop_last();
        lemma_split_append(p, y0);
        assert((p + y).drop_last() =~= p + y0);
        assert((p + y).last() == y.last());
        assert(y.last() != '/');
        let r = split(p + y0);
        assert(r.last() =~= split(p).last() + y0);
        assert(r.last().push(y.last()) =~= split(p).last() + y);
        assert(split(p + y) =~= split(p).update(split(p).len() - 1, split(p).last() + y));
    }
}

/// Splitting levels joined by `/` gives them back.
pub proof fn lemma_split_join(x: Seq<Seq<char>>)
    requires
        x.len() >= 1,
        forall|j: int| 0 <= j < x.len() ==> has_no_slash(#[trigger] x[j]),
    ensures
        split(join(x)) == x,
    decreases x.len(),
{
    if x.len() == 1 {
        lemma_split_append(Seq::empty(), x[0]);
        assert(Seq::<char>::empty() + x[0] =~= x[0]);
        assert(split(Seq::<char>::empty()) == seq![Seq::<char>::empty()]);
        assert(split(x[0]) =~= x);
    } else {
        let z = x.drop_last();
        assert forall|j: int| 0 <= j < z.len() implies has_no_slash(#[trigger] z[j]) by {
            assert(z[j] == x[j]);
        }
        lemma_split_join(z);
        let p = join(z).push('/');
        assert(has_no_slash(x[x.len() - 1]));
        lemma_split_append(p, x.last());
        assert(p.drop_last() =~= join(z));
        assert(split(p) == z.push(Seq::empty()));
        assert(Seq::<char>::empty() + x.last() =~= x.last());
        assert(split(join(x)) =~= x);
    }
}

pub open spec fn close_level(ids: Seq<MqttId>, pat: Seq<char>, cur: Seq<char>) -> (
    Seq<MqttId>,
    Seq<char>,
) {
    if is_id_text(cur) {
        (ids.push(MqttId { value: hex_value(cur) as u128 }), pat + placeholder())
    } else {
        (ids, pat + cur)
    }
}

/// Adds one level to the identifiers and pattern read so far.
fn add_level(ids: &mut Vec<MqttId>, pattern: &mut String, level: &str)
    ensures
        (final(ids)@, final(pattern)@) == close_level(old(ids)@, old(pattern)@, level@),
{
    match MqttId::from_text(level) {
        Some(id) => {
            ids.push(id);
            pattern.append(":mqttid:");
        },
        None => {
            pattern.append(level);
        },
    }
}

proof fn lemma_close_step(done: Seq<Seq<char>>, cur: Seq<char>)
    ensures
        close_level(level_ids(done), join_open(pats(done)), cur).0 == level_ids(done.push(cur)),
        close_level(level_ids(done), join_open(pats(done)), cur).1 == join(pats(done.push(cur))),
{
    assert(done.push(cur).drop_last() =~= done);
    assert(pats(done.push(cur)) =~= pats(done).push(level_pat(cur)));
    lemma_join_open(pats(done), level_pat(cur));
}

impl MqttScheme {
    /// Reads a topic: the identifier levels, in order, and the pattern with
    /// `:mqttid:` in place of each of them.
    pub fn extract_ids_and_pattern(topic: &str) -> (r: (Vec<MqttId>, String))
        ensures
            r.0@ == parse_topic(topic@).0,
            r.1@ == parse_topic(topic@).1,
    {
        let n = topic.unicode_len();
        let mut ids: Vec<MqttId> = Vec::new();
        let mut pattern = String::new();
        let mut start: usize = 0;
        let mut i: usize = 0;
        let ghost mut done: Seq<Seq<char>> = Seq::empty();
        proof {
            assert(topic@.take(0) =~= Seq::<char>::empty());
            assert(topic@.subrange(0, 0) =~= Seq::<char>::empty());
            assert(pats(done) =~= Seq::<Seq<char>>::empty());
        }
        while i < n
            invariant
                n == topic@.len(),
                start <= i <= n,
                split(topic@.take(i as int)) == done.push(topic@.subrange(start as int, i as int)),
                ids@ == level_ids(done),
                pattern@ == join_open(pats(done)),
            decreases n - i,
        {
            let c = topic.get_char(i);
            let ghost cur = topic@.subrange(start as int, i as int);
            proof {
                assert(topic@.take(i + 1).drop_last() =~= topic@.take(i as int));
                assert(topic@.take(i + 1).last() == c);
            }
            if c == '/' {
                let level = topic.substring_char(start, i);
                add_level(&mut ids, &mut pattern, level);
                pattern.append("/");
                proof {
                    reveal_strlit("/");
                    lemma_close_step(done, cur);
                    let nd = done.push(cur);
                    assert(nd.drop_last() =~= done);
                    assert(pats(nd).drop_last() =~= pats(done));
                    assert(pats(nd).last() == level_pat(cur));
                    assert(join_open(pats(nd)) == (join_open(pats(done)) + level_pat(cur)).push('/'));
                    assert(pattern@ =~= join_open(pats(nd)));
                    done = nd;
                    assert(topic@.subrange(i + 1, i + 1) =~= Seq::<char>::empty());
                }
                start = i + 1;
            } else {
                proof {
                    let sp = split(topic@.take(i as int));
                    assert(sp.last() == cur);
                    assert(topic@.subrange(start as int, i + 1) =~= cur.push(c));
                    assert(split(topic@.take(i + 1)) =~= done.push(cur.push(c)));
                }
            }
            i += 1;
        }
        let level = topic.substring_char(start, n);
        proof {
            assert(topic@.take(n as int) =~= topic@);
            lemma_close_step(done, level@);
        }
        add_level(&mut ids, &mut pattern, level);
        (ids, pattern)
    }
}


fn pick(role: Role, a: Vec<Level>, s: Vec<Level>, e: Vec<Level>) -> (r: Vec<Level>)
    ensures
        r@ == tail3(role, a@, s@, e@),
{
    match role {
        Role::Action => a,
        Role::Success => s,
        Role::Error => e,
    }
}

/// Writes the template text of `t`: its levels with `:mqttid:` for each parameter.
fn pattern_of_levels(t: &Vec<Level>) -> (r: String)
    ensures
        r@ == pattern_text(t@),
{
    let mut out = String::new();
    let mut j: usize = 0;
    let ghost full = Seq::new(t@.len(), |i: int| level_pattern(t@[i]));
    proof {
        assert(full.take(0) =~= Seq::<Seq<char>>::empty());
    }
    while j < t.len()
        invariant
            0 <= j <= t@.len(),
            full == Seq::new(t@.len(), |i: int| level_pattern(t@[i])),
            out@ == join(full.take(j as int)),
        decreases t@.len() - j,
    {
        if j > 0 {
            out.append("/");
        }
        match t[j] {
            Level::Word(w) => {
                out.append(word_text(w));
            },
            Level::Param => {
                out.append(":mqttid:");
            },
        }
        proof {
            reveal_strlit("/");
            if j > 0 {
                lemma_join_step(full, j as int);
            } else {
                assert(full.take(1) =~= seq![full[0]]);
                assert(out@ =~= full[0]);
            }
        }
        j += 1;
    }
    proof {
        assert(full.take(t@.len() as int) =~= full);
    }
    out
}

pub proof fn lemma_template_nonempty(s: MqttScheme, role: Role)
    ensures
        template(s, role).len() >= 1,
{
}

impl MqttScheme {
    /// The levels of this operation's template in `role`.
    pub fn template_levels(&self, role: Role) -> (r: Vec<Level>)
        ensures
            r@ == template(*self, role),
    {
        let sn = Level::Word(Word::Sensor);
        let p = Level::Param;
        let m = Level::Word(Word::Metric);
        let inb = Level::Word(Word::Inbox);
        let inf = Level::Word(Word::Info);
        let er = Level::Word(Word::Error);
        let r = match self {
            MqttScheme::SensorList => pick(
                role,
                vec![sn, Level::Word(Word::List)],
                vec![Level::Word(Word::Inventory), inb],
                vec![Level::Word(Word::Inventory), er, inb],
            ),
            MqttScheme::SensorCreate => pick(
                role,
                vec![sn, Level::Word(Word::Create)],
                vec![sn, inb],
                vec![sn, er, inb],
            ),
            MqttScheme::SensorUpdate(_) => pick(
                role,
                vec![sn, p, Level::Word(Word::Update)],
                vec![sn, p, Level::Word(Word::Update), inf, inb],
                vec![sn, p, Level::Word(Word::Update), er, inb],
            ),
            MqttScheme::SensorDelete(_) => pick(
                role,
                vec![sn, p, Level::Word(Word::Delete)],
                vec![sn, p, Level::Word(Word::Delete), inf, inb],
                vec![sn, p, Level::Word(Word::Delete), er, inb],
            ),
            MqttScheme::MetricDescribe(_, _) => pick(
                role,
                vec![sn, p, m, p, Level::Word(Word::Inventory)],
                vec![sn, p, m, p, Level::Word(Word::Inventory), inb],
                vec![sn, p, m, p, Level::Word(Word::Inventory), er, inb],
            ),
            MqttScheme::MetricCreate(_) => pick(
                role,
                vec![sn, p, m, Level::Word(Word::Create)],
                vec![sn, p, m, inb],
                vec![sn, p, m, er, inb],
            ),
            MqttScheme::MetricUpdate(_) => pick(
                role,
                vec![sn, p, m, Level::Word(Word::Update)],
                vec![sn, p, m, Level::Word(Word::Update), inf, inb],
                vec![sn, p, m, Level::Word(Word::Update), er, inb],
            ),
            MqttScheme::MetricDelete(_) => pick(
                role,
                vec![sn, p, m, Level::Word(Word::Delete)],
                vec![sn, p, m, Level::Word(Word::Delete), inf, inb],
                vec![sn, p, m, Level::Word(Word::Delete), er, inb],
            ),
            MqttScheme::PushValues(_) => pick(
                role,
                vec![sn, p, m, Level::Word(Word::PushValues)],
                vec![sn, p, inf, inb],
                vec![sn, p, er, inb],
            ),
            MqttScheme::Ping => pick(
                role,
                vec![Level::Word(Word::Ping)],
                vec![Level::Word(Word::Ping), inf, inb],
                vec![Level::Word(Word::Ping), er, inb],
            ),
        };
        proof {
            assert(r@ =~= template(*self, role));
        }
        r
    }

    /// The identifiers this operation addresses, in template order.
    pub fn ids(&self) -> (r: Vec<MqttId>)
        ensures
            r@ == scheme_ids(*self),
    {
        let r = match self {
            MqttScheme::SensorUpdate(a) => vec![*a],
            MqttScheme::SensorDelete(a) => vec![*a],
            MqttScheme::MetricDescribe(a, b) => vec![*a, *b],
            MqttScheme::MetricCreate(a) => vec![*a],
            MqttScheme::MetricUpdate(a) => vec![*a],
            MqttScheme::MetricDelete(a) => vec![*a],
            MqttScheme::PushValues(a) => vec![*a],
            _ => Vec::new(),
        };
        proof {
            assert(r@ =~= scheme_ids(*self));
        }
        r
    }

    /// The three template texts (action, success, error) of this operation.
    pub fn get_templates(&self) -> (r: (String, String, String))
        ensures
            r.0@ == template_text(*self, Role::Action),
            r.1@ == template_text(*self, Role::Success),
            r.2@ == template_text(*self, Role::Error),
    {
        (
            pattern_of_levels(&self.template_levels(Role::Action)),
            pattern_of_levels(&self.template_levels(Role::Success)),
            pattern_of_levels(&self.template_levels(Role::Error)),
        )
    }

    /// The topic of this operation in `role`.
    pub fn topic(&self, role: Role) -> (r: String)
        ensures
            r@ == topic_text(*self, role),
    {
        let ids = self.ids();
        let t = self.template_levels(role);
        proof {
            lemma_template_params(*self, role);
        }
        render_levels(&t, &ids)
    }

    /// The three topics (action, success, error) of this operation.
    pub fn get_topics(&self) -> (r: (String, String, String))
        ensures
            r.0@ == topic_text(*self, Role::Action),
            r.1@ == topic_text(*self, Role::Success),
            r.2@ == topic_text(*self, Role::Error),
    {
        (self.topic(Role::Action), self.topic(Role::Success), self.topic(Role::Error))
    }
}

pub open spec fn ids_concrete(ids: Seq<MqttId>) -> bool {
    forall|k: int| 0 <= k < ids.len() ==> (#[trigger] ids[k]).value != 0
}

proof fn lemma_rendered_no_slash(t: Seq<Level>, ids: Seq<MqttId>)
    requires
        param_count(t) <= ids.len(),
        ids_concrete(ids),
    ensures
        forall|j: int| 0 <= j < t.len() ==> has_no_slash(#[trigger] rendered_levels(t, ids)[j]),
{
    assert forall|j: int| 0 <= j < t.len() implies has_no_slash(#[trigger] rendered_levels(t, ids)[j]) by {
        match t[j] {
            Level::Word(w) => {
                lemma_word(w);
            },
            Level::Param => {
                lemma_params_mono(t, j, t.len() as int);
                let k = params_before(t, j) as int;
                assert(ids[k].value != 0);
                lemma_hex_text(ids[k].value);
                let x = hex_text(ids[k].value);
                assert forall|i: int| 0 <= i < x.len() implies x[i] != '/' by {
                    assert(crate::ids::is_hex_char(x[i]));
                }
            },
        }
    }
}

proof fn lemma_level_ids_rendered(t: Seq<Level>, ids: Seq<MqttId>, j: int)
    requires
        0 <= j <= t.len(),
        param_count(t) <= ids.len(),
        ids_concrete(ids),
    ensures
        level_ids(rendered_levels(t, ids).take(j)) == ids.take(params_before(t, j) as int),
    decreases j,
{
    let x = rendered_levels(t, ids);
    if j == 0 {
        assert(x.take(0) =~= Seq::<Seq<char>>::empty());
        assert(ids.take(0) =~= Seq::<MqttId>::empty());
    } else {
        lemma_level_ids_rendered(t, ids, j - 1);
        assert(x.take(j).drop_last() =~= x.take(j - 1));
        lemma_params_mono(t, j - 1, t.len() as int);
        let k = params_before(t, j - 1) as int;
        match t[j - 1] {
            Level::Word(w) => {
                lemma_word(w);
            },
            Level::Param => {
                lemma_hex_text(ids[k].value);
                assert(ids.take(k + 1) =~= ids.take(k).push(ids[k]));
            },
        }
    }
}

/// Reading back the topic of an operation gives its identifiers, in order,
/// and its template text.
pub proof fn lemma_parse_render(s: MqttScheme, role: Role)
    requires
        ids_concrete(scheme_ids(s)),
    ensures
        parse_topic(topic_text(s, role)).0 == scheme_ids(s),
        parse_topic(topic_text(s, role)).1 == template_text(s, role),
{
    let t = template(s, role);
    let ids = scheme_ids(s);
    lemma_template_params(s, role);
    let x = rendered_levels(t, ids);
    lemma_rendered_no_slash(t, ids);
    lemma_split_join(x);
    lemma_level_ids_rendered(t, ids, t.len() as int);
    assert(x.take(t.len() as int) =~= x);
    assert(ids.take(ids.len() as int) =~= ids);
    assert forall|j: int| 0 <= j < t.len() implies pats(x)[j] == level_pattern(t[j]) by {
        match t[j] {
            Level::Word(w) => {
                lemma_word(w);
            },
            Level::Param => {
                lemma_params_mono(t, j, t.len() as int);
                lemma_hex_text(ids[params_before(t, j) as int].value);
            },
        }
    }
    assert(pats(x) =~= Seq::new(t.len(), |j: int| level_pattern(t[j])));
}


/// The operation of the same kind as `s`, with nil identifiers.
pub open spec fn kind_of(s: MqttScheme) -> MqttScheme {
    with_ids_spec(s, seq![MqttId { value: 0 }, MqttId { value: 0 }])
}

proof fn lemma_level_pattern_injective(a: Level, b: Level)
    requires
        level_pattern(a) == level_pattern(b),
    ensures
        a == b,
{
    reveal_strlit("sensor");
    reveal_strlit("list");
    reveal_strlit("create");
    reveal_strlit("update");
    reveal_strlit("delete");
    reveal_strlit("metric");
    reveal_strlit("inventory");
    reveal_strlit("inbox");
    reveal_strlit("info");
    reveal_strlit("error");
    reveal_strlit("pushValues");
    reveal_strlit("ping");
    reveal_strlit("livedata");
    reveal_strlit(":mqttid:");
    let (x, y) = (level_pattern(a), level_pattern(b));
    assert(x.len() == y.len());
    if x.len() > 0 {
        assert(x[0] == y[0]);
    }
    if x.len() > 1 {
        assert(x[1] == y[1]);
    }
    if x.len() > 2 {
        assert(x[2] == y[2]);
    }
}

#[verifier::rlimit(100)]
proof fn lemma_template_injective(a: MqttScheme, ra: Role, b: MqttScheme, rb: Role)
    requires
        template(a, ra) == template(b, rb),
    ensures
        kind_of(a) == kind_of(b),
        ra == rb,
{
    let (ta, tb) = (template(a, ra), template(b, rb));
    assert(ta.len() == tb.len());
    assert(ta[0] == tb[0]);
    assert(ta[1] == tb[1] || ta.len() < 2);
    assert(ta[2] == tb[2] || ta.len() < 3);
    assert(ta[3] == tb[3] || ta.len() < 4);
    assert(ta[4] == tb[4] || ta.len() < 5);
    assert(ta[5] == tb[5] || ta.len() < 6);
}

/// Template texts of two non-empty level sequences are equal only when the sequences are.
pub proof fn lemma_pattern_text_injective(ta: Seq<Level>, tb: Seq<Level>)
    requires
        ta.len() >= 1,
        tb.len() >= 1,
        pattern_text(ta) == pattern_text(tb),
    ensures
        ta == tb,
{
    let pa = Seq::new(ta.len(), |j: int| level_pattern(ta[j]));
    let pb = Seq::new(tb.len(), |j: int| level_pattern(tb[j]));
    lemma_placeholder();
    assert forall|j: int| 0 <= j < pa.len() implies has_no_slash(#[trigger] pa[j]) by {
        if let Level::Word(w) = ta[j] {
            lemma_word(w);
        }
    }
    assert forall|j: int| 0 <= j < pb.len() implies has_no_slash(#[trigger] pb[j]) by {
        if let Level::Word(w) = tb[j] {
            lemma_word(w);
        }
    }
    lemma_split_join(pa);
    lemma_split_join(pb);
    assert(pa == pb);
    assert forall|j: int| 0 <= j < ta.len() implies ta[j] == tb[j] by {
        assert(pa[j] == pb[j]);
        lemma_level_pattern_injective(ta[j], tb[j]);
    }
    assert(ta =~= tb);
}

/// The templates of different operations or roles differ.
pub proof fn lemma_template_text_distinct(a: MqttScheme, ra: Role, b: MqttScheme, rb: Role)
    requires
        template_text(a, ra) == template_text(b, rb),
    ensures
        kind_of(a) == kind_of(b),
        ra == rb,
{
    lemma_template_nonempty(a, ra);
    lemma_template_nonempty(b, rb);
    lemma_pattern_text_injective(template(a, ra), template(b, rb));
    lemma_template_injective(a, ra, b, rb);
}

/// No operation template is the livedata template.
pub proof fn lemma_livedata_distinct(s: MqttScheme, role: Role)
    ensures
        template_text(s, role) != livedata_pattern(),
{
    if template_text(s, role) == livedata_pattern() {
        lemma_template_nonempty(s, role);
        lemma_pattern_text_injective(template(s, role), livedata_template());
        let t = template(s, role);
        assert(t.len() == 3);
        assert(t[2] == Level::Word(Word::Livedata));
    }
}


/// Position of the kind of `s` in declaration order.
pub open spec fn kind_index(s: MqttScheme) -> int {
    match s {
        MqttScheme::SensorList => 0,
        MqttScheme::SensorCreate => 1,
        MqttScheme::SensorUpdate(_) => 2,
        MqttScheme::SensorDelete(_) => 3,
        MqttScheme::MetricDescribe(_, _) => 4,
        MqttScheme::MetricCreate(_) => 5,
        MqttScheme::MetricUpdate(_) => 6,
        MqttScheme::MetricDelete(_) => 7,
        MqttScheme::PushValues(_) => 8,
        MqttScheme::Ping => 9,
    }
}

/// Every operation kind, in declaration order, with nil identifiers.
pub fn all_kinds() -> (r: Vec<MqttScheme>)
    ensures
        r@.len() == 10,
        forall|s: MqttScheme| #[trigger] r@[kind_index(s)] == kind_of(s),
        forall|i: int| 0 <= i < 10 ==> kind_of(#[trigger] r@[i]) == r@[i],
{
    let z = MqttId::nil();
    let r = vec![
        MqttScheme::SensorList,
        MqttScheme::SensorCreate,
        MqttScheme::SensorUpdate(z),
        MqttScheme::SensorDelete(z),
        MqttScheme::MetricDescribe(z, z),
        MqttScheme::MetricCreate(z),
        MqttScheme::MetricUpdate(z),
        MqttScheme::MetricDelete(z),
        MqttScheme::PushValues(z),
        MqttScheme::Ping,
    ];
    r
}

/// One reply template of the reverse index.
pub struct IndexEntry {
    pub pattern: String,
    pub scheme: MqttScheme,
    pub role: Role,
}

/// Reverse index from the success and error template texts to the operation
/// they answer, built once from every operation kind.
pub struct TopicIndex {
    entries: Vec<IndexEntry>,
}

/// How an inbound topic reads.
#[derive(Clone, Copy, Debug, PartialEq, Eq, Structural)]
pub enum Inbound {
    /// A reply to operation `scheme`, on its success or error topic.
    Reply { scheme: MqttScheme, role: Role },
    /// A livedata push for a sensor.
    Livedata(SensorId),
    /// Neither.
    Unknown,
}

pub open spec fn livedata_pattern() -> Seq<char> {
    pattern_text(livedata_template())
}

pub open spec fn is_reply_of(pat: Seq<char>, ids: Seq<MqttId>, s: MqttScheme, role: Role) -> bool {
    &&& role != Role::Action
    &&& template_text(s, role) == pat
    &&& scheme_ids(s) == ids
}

/// The reading of a topic (without the connector prefix).
pub open spec fn classify_spec(topic: Seq<char>, r: Inbound) -> bool {
    let (ids, pat) = parse_topic(topic);
    let live = pat == livedata_pattern() && ids.len() == 1;
    match r {
        Inbound::Livedata(id) => live && ids == seq![id],
        Inbound::Reply { scheme, role } => !live && is_reply_of(pat, ids, scheme, role),
        Inbound::Unknown => !live && forall|s: MqttScheme, role: Role|
            !is_reply_of(pat, ids, s, role),
    }
}

/// Operations of one kind with the same identifiers are the same.
pub proof fn lemma_kind_ids(a: MqttScheme, b: MqttScheme)
    requires
        kind_of(a) == kind_of(b),
        scheme_ids(a) == scheme_ids(b),
    ensures
        a == b,
{
    let (x, y) = (scheme_ids(a), scheme_ids(b));
    if x.len() > 0 {
        assert(x[0] == y[0]);
    }
    if x.len() > 1 {
        assert(x[1] == y[1]);
    }
}

pub proof fn lemma_with_ids(s: MqttScheme, ids: Seq<MqttId>)
    requires
        ids.len() == scheme_ids(s).len(),
    ensures
        scheme_ids(with_ids_spec(s, ids)) == ids,
        kind_of(with_ids_spec(s, ids)) == kind_of(s),
{
    assert(scheme_ids(with_ids_spec(s, ids)) =~= ids);
}

impl MqttScheme {
    /// The operation of this kind addressing `ids`: `None` when their number
    /// does not fit the kind.
    pub fn with_ids(&self, ids: &Vec<MqttId>) -> (r: Option<MqttScheme>)
        ensures
            ids@.len() == scheme_ids(*self).len() ==> r == Some(with_ids_spec(*self, ids@)),
            ids@.len() != scheme_ids(*self).len() ==> r is None,
    {
        let n = ids.len();
        match self {
            MqttScheme::SensorList | MqttScheme::SensorCreate | MqttScheme::Ping => {
                if n == 0 {
                    Some(*self)
                } else {
                    None
                }
            },
            MqttScheme::MetricDescribe(_, _) => {
                if n == 2 {
                    Some(MqttScheme::MetricDescribe(ids[0], ids[1]))
                } else {
                    None
                }
            },
            MqttScheme::SensorUpdate(_) => {
                if n == 1 {
                    Some(MqttScheme::SensorUpdate(ids[0]))
                } else {
                    None
                }
            },
            MqttScheme::SensorDelete(_) => {
                if n == 1 {
                    Some(MqttScheme::SensorDelete(ids[0]))
                } else {
                    None
                }
            },
            MqttScheme::MetricCreate(_) => {
                if n == 1 {
                    Some(MqttScheme::MetricCreate(ids[0]))
                } else {
                    None
                }
            },
            MqttScheme::MetricUpdate(_) => {
                if n == 1 {
                    Some(MqttScheme::MetricUpdate(ids[0]))
                } else {
                    None
                }
            },
            MqttScheme::MetricDelete(_) => {
                if n == 1 {
                    Some(MqttScheme::MetricDelete(ids[0]))
                } else {
                    None
                }
            },
            MqttScheme::PushValues(_) => {
                if n == 1 {
                    Some(MqttScheme::PushValues(ids[0]))
                } else {
                    None
                }
            },
        }
    }
}

impl TopicIndex {
    pub closed spec fn wf(&self) -> bool {
        &&& forall|i: int|
            0 <= i < self.entries@.len() ==> {
                let e = #[trigger] self.entries@[i];
                &&& e.pattern@ == template_text(e.scheme, e.role)
                &&& e.role != Role::Action
                &&& kind_of(e.scheme) == e.scheme
            }
        &&& forall|s: MqttScheme, role: Role|
            role != Role::Action ==> #[trigger] self.covers(s, role)
    }

    pub closed spec fn covers(&self, s: MqttScheme, role: Role) -> bool {
        exists|i: int|
            0 <= i < self.entries@.len() && (#[trigger] self.entries@[i]).scheme == kind_of(s)
                && self.entries@[i].role == role
    }

    pub fn new() -> (r: TopicIndex)
        ensures
            r.wf(),
    {
        let kinds = all_kinds();
        let mut entries: Vec<IndexEntry> = Vec::new();
        let mut i: usize = 0;
        while i < kinds.len()
            invariant
                kinds@.len() == 10,
                forall|s: MqttScheme| #[trigger] kinds@[kind_index(s)] == kind_of(s),
                forall|j: int| 0 <= j < 10 ==> kind_of(#[trigger] kinds@[j]) == kinds@[j],
                0 <= i <= 10,
                entries@.len() == 2 * i,
                forall|j: int|
                    0 <= j < entries@.len() ==> {
                        let e = #[trigger] entries@[j];
                        &&& e.pattern@ == template_text(e.scheme, e.role)
                        &&& e.role != Role::Action
                        &&& kind_of(e.scheme) == e.scheme
                    },
                forall|j: int|
                    0 <= j < i ==> entries@[2 * j].scheme == kinds@[j] && entries@[2 * j].role
                        == Role::Success && entries@[2 * j + 1].scheme == kinds@[j] && entries@[2
                        * j + 1].role == Role::Error,
            decreases 10 - i,
        {
            let k = kinds[i];
            let (_, success, error) = k.get_templates();
            entries.push(IndexEntry { pattern: success, scheme: k, role: Role::Success });
            entries.push(IndexEntry { pattern: error, scheme: k, role: Role::Error });
            i += 1;
        }
        let r = TopicIndex { entries };
        assert forall|s: MqttScheme, role: Role| role != Role::Action implies #[trigger] r.covers(s, role) by {
            let j = kind_index(s);
            assert(kinds@[j] == kind_of(s));
            if role == Role::Success {
                assert(r.entries@[2 * j].scheme == kind_of(s));
            } else {
                assert(r.entries@[2 * j + 1].scheme == kind_of(s));
            }
        }
        r
    }

    /// The operation kind and role whose template text is `pattern`.
    pub fn lookup(&self, pattern: &String) -> (r: Option<(MqttScheme, Role)>)
        requires
            self.wf(),
        ensures
            r matches Some((k, role)) ==> role != Role::Action && kind_of(k) == k && template_text(
                k,
                role,
            ) == pattern@,
            r is None ==> forall|s: MqttScheme, role: Role|
                role != Role::Action ==> template_text(s, role) != pattern@,
    {
        let mut i: usize = 0;
        while i < self.entries.len()
            invariant
                self.wf(),
                0 <= i <= self.entries@.len(),
                forall|j: int| 0 <= j < i ==> (#[trigger] self.entries@[j]).pattern@ != pattern@,
            decreases self.entries@.len() - i,
        {
            let e = &self.entries[i];
            if e.pattern == *pattern {
                return Some((e.scheme, e.role));
            }
            i += 1;
        }
        proof {
            assert forall|s: MqttScheme, role: Role| role != Role::Action implies template_text(
                s,
                role,
            ) != pattern@ by {
                assert(self.covers(s, role));
                let j = choose|j: int|
                    0 <= j < self.entries@.len() && (#[trigger] self.entries@[j]).scheme == kind_of(s)
                        && self.entries@[j].role == role;
                assert(template_text(kind_of(s), role) == template_text(s, role));
                assert(self.entries@[j].pattern@ != pattern@);
            }
        }
        None
    }

    /// Reads an inbound topic (without the connector prefix): a livedata push,
    /// a reply to one operation, or neither.
    pub fn classify(&self, topic: &str) -> (r: Inbound)
        requires
            self.wf(),
        ensures
            classify_spec(topic@, r),
    {
        let (ids, pattern) = MqttScheme::extract_ids_and_pattern(topic);
        let live = livedata_levels();
        let live_pattern = pattern_of_levels(&live);
        if pattern == live_pattern && ids.len() == 1 {
            proof {
                assert(ids@ =~= seq![ids@[0]]);
            }
            return Inbound::Livedata(ids[0]);
        }
        match self.lookup(&pattern) {
            Some((k, role)) => {
                match k.with_ids(&ids) {
                    Some(scheme) => {
                        proof {
                            lemma_with_ids(k, ids@);
                        }
                        Inbound::Reply { scheme, role }
                    },
                    None => {
                        proof {
                            assert forall|s: MqttScheme, role2: Role| !is_reply_of(pattern@, ids@, s, role2) by {
                                if is_reply_of(pattern@, ids@, s, role2) {
                                    lemma_template_text_distinct(s, role2, k, role);
                                    assert(scheme_ids(s).len() == scheme_ids(k).len());
                                }
                            }
                        }
                        Inbound::Unknown
                    },
                }
            },
            None => Inbound::Unknown,
        }
    }
}

fn livedata_levels() -> (r: Vec<Level>)
    ensures
        r@ == livedata_template(),
{
    let r = vec![Level::Word(Word::Sensor), Level::Param, Level::Word(Word::Livedata)];
    proof {
        assert(r@ =~= livedata_template());
    }
    r
}


/// Round trip: the topic of an operation, read back, gives its identifiers in
/// order and its template text; a success or error topic is classified as a
/// reply to that very operation, in that role.
pub proof fn lemma_topic_round_trip(s: MqttScheme, role: Role)
    requires
        ids_concrete(scheme_ids(s)),
    ensures
        parse_topic(topic_text(s, role)).0 == scheme_ids(s),
        parse_topic(topic_text(s, role)).1 == template_text(s, role),
        role != Role::Action ==> forall|r: Inbound|
            classify_spec(topic_text(s, role), r) ==> r == (Inbound::Reply { scheme: s, role }),
{
    lemma_parse_render(s, role);
    lemma_livedata_distinct(s, role);
    if role != Role::Action {
        assert forall|r: Inbound| classify_spec(topic_text(s, role), r) implies r == (Inbound::Reply {
            scheme: s,
            role,
        }) by {
            let (ids, pat) = parse_topic(topic_text(s, role));
            assert(is_reply_of(pat, ids, s, role));
            if let Inbound::Reply { scheme, role: r2 } = r {
                lemma_template_text_distinct(scheme, r2, s, role);
                lemma_kind_ids(scheme, s);
            }
        }
    }
}


/// The connector-scoped prefix of every topic: `/v1.0/<connector>/`.
pub open spec fn connector_prefix(c: MqttId) -> Seq<char> {
    "/v1.0/"@ + id_text(c.value) + "/"@
}

/// The prefix of the topics of connector `connector`.
pub fn connector_prefix_text(connector: MqttId) -> (r: String)
    ensures
        r@ == connector_prefix(connector),
{
    let mut r = String::from_str("/v1.0/");
    let id = connector.to_text();
    r.append(id.as_str());
    r.append("/");
    r
}

/// The full topic of `topic` under connector `connector`.
pub fn full_topic(connector: MqttId, topic: &str) -> (r: String)
    ensures
        r@ == connector_prefix(connector) + topic@,
{
    let mut r = connector_prefix_text(connector);
    r.append(topic);
    r
}

/// The topic below the prefix of connector `connector`, if it has that prefix.
pub fn strip_connector(connector: MqttId, topic: &str) -> (r: Option<String>)
    ensures
        connector_prefix(connector).is_prefix_of(topic@) ==> (r matches Some(rest) && topic@
            == connector_prefix(connector) + rest@),
        !connector_prefix(connector).is_prefix_of(topic@) ==> r is None,
{
    let prefix = connector_prefix_text(connector);
    let n = prefix.as_str().unicode_len();
    let len = topic.unicode_len();
    if len < n {
        return None;
    }
    let head = String::from_str(topic.substring_char(0, n));
    if !(head == prefix) {
        proof {
            assert(topic@.subrange(0, n as int) != prefix@);
            if prefix@.is_prefix_of(topic@) {
                assert(topic@.subrange(0, n as int) =~= prefix@);
            }
        }
        return None;
    }
    let rest = String::from_str(topic.substring_char(n, len));
    proof {
        assert(topic@ =~= prefix@ + rest@);
        assert(prefix@.is_prefix_of(topic@));
    }
    Some(rest)
}

} // verus!
