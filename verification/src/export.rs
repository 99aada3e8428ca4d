//! Export a snapshot of the vault.
//!
//! Two formats:
//! - `Encrypted`: a passphrase-protected `age` file holding the plain text below.
//! - `EnvPlain`: plain `KEY=value` lines per namespace, each namespace opened
//!   by a `# namespace: <ns>` comment.
use std::io::Write;
use vstd::prelude::*;
use vstd::string::*;
use vstd::utf8::*;

use crate::error::{Error, Result};
use crate::secret_value::SecretValue;
use crate::text::{
    insert_sorted, lemma_sorted_listing, sorted_listing, string_into_bytes, strictly_sorted, views,
};
use crate::vault::{exact, namespaces_of, vars_of, Contents, Vault};

verus! {

#[derive(Debug, Clone, Copy, PartialEq, Eq, Structural)]
pub enum ExportFormat {
    /// `age`-encrypted, passphrase-protected.
    Encrypted,
    /// Plaintext `.env`-format dump. Insecure; opt-in only.
    EnvPlain,
}

/// The namespaces exported: the ones asked for, or all when none is; sorted, each once.
pub open spec fn export_namespaces(c: Contents, requested: Seq<Seq<char>>) -> Seq<Seq<char>> {
    if requested.len() == 0 {
        sorted_listing(namespaces_of(c))
    } else {
        sorted_listing(requested.to_set())
    }
}

/// The `KEY=value` lines for `vars` of `namespace`.
pub open spec fn var_lines(c: Contents, namespace: Seq<char>, vars: Seq<Seq<char>>) -> Seq<char>
    decreases vars.len(),
{
    if vars.len() == 0 {
        Seq::empty()
    } else {
        var_lines(c, namespace, vars.drop_last()) + vars.last() + "="@ + decode_utf8(
            c[(namespace, vars.last())],
        ) + "\n"@
    }
}

/// The section for one namespace: its header, its sorted variables, a blank line.
pub open spec fn namespace_block(c: Contents, namespace: Seq<char>) -> Seq<char> {
    "# namespace: "@ + namespace + "\n"@ + var_lines(
        c,
        namespace,
        sorted_listing(vars_of(c, namespace)),
    ) + "\n"@
}

/// The plain export of the namespaces `nss`, in order.
pub open spec fn export_text(c: Contents, nss: Seq<Seq<char>>) -> Seq<char>
    decreases nss.len(),
{
    if nss.len() == 0 {
        Seq::empty()
    } else {
        export_text(c, nss.drop_last()) + namespace_block(c, nss.last())
    }
}

/// The first of `vars` in `namespace` whose value is not UTF-8.
pub open spec fn first_non_utf8_var(c: Contents, namespace: Seq<char>, vars: Seq<Seq<char>>) -> Option<
    Seq<char>,
>
    decreases vars.len(),
{
    if vars.len() == 0 {
        None
    } else if !valid_utf8(c[(namespace, vars[0])]) {
        Some(vars[0])
    } else {
        first_non_utf8_var(c, namespace, vars.drop_first())
    }
}

/// The first `(namespace, var)` exported whose value is not UTF-8.
pub open spec fn first_non_utf8(c: Contents, nss: Seq<Seq<char>>) -> Option<(Seq<char>, Seq<char>)>
    decreases nss.len(),
{
    if nss.len() == 0 {
        None
    } else {
        match first_non_utf8_var(c, nss[0], sorted_listing(vars_of(c, nss[0]))) {
            Some(v) => Some((nss[0], v)),
            None => first_non_utf8(c, nss.drop_first()),
        }
    }
}

pub open spec fn non_utf8_text(namespace: Seq<char>, var: Seq<char>) -> Seq<char> {
    "non-UTF-8 value at "@ + namespace + "/"@ + var + " cannot be exported"@
}

/// How the `age` encryption failed.
pub enum AgeFailure {
    /// Writing the header failed; the text is the error's message.
    Setup(String),
    /// Writing the body failed.
    Write(std::io::Error),
    /// Writing the final chunk failed; the text is the error's message.
    Finish(String),
}

/// The plaintext that `age`'s passphrase decryption (`age::Decryptor` for a
/// passphrase, reading the whole stream, with no ceiling on the scrypt work
/// factor) recovers from `ciphertext` with `passphrase`, when it recovers one.
pub uninterp spec fn age_decrypt(ciphertext: Seq<u8>, passphrase: Seq<char>) -> Option<Seq<u8>>;

/// Encrypts `plaintext` to `passphrase` in the `age` format: an
/// `age::Encryptor` for the passphrase wraps a byte buffer, the plaintext is
/// written through it and the stream finished. The bytes depend on a fresh
/// random salt and key; what is stated is that decrypting them with the same
/// passphrase gives the plaintext back. It succeeds: a passphrase recipient
/// wraps the file key without failing (age's `scrypt::Recipient::wrap_file_key`
/// returns `Ok` for every passphrase), and every write goes to a `Vec`, which
/// takes any bytes.
#[verifier::external_body]
fn age_encrypt(plaintext: &[u8], passphrase: &str) -> (r: core::result::Result<Vec<u8>, AgeFailure>)
    ensures
        r is Ok,
        r matches Ok(c) ==> age_decrypt(c@, passphrase@) == Some(plaintext@),
{
    let encryptor = age::Encryptor::with_user_passphrase(
        age::secrecy::SecretString::new(passphrase.to_owned()),
    );
    let mut out = Vec::new();
    let mut writer = match encryptor.wrap_output(&mut out) {
        Ok(w) => w,
        Err(e) => return Err(AgeFailure::Setup(e.to_string())),
    };
    if let Err(e) = writer.write_all(plaintext) {
        return Err(AgeFailure::Write(e));
    }
    if let Err(e) = writer.finish() {
        return Err(AgeFailure::Finish(e.to_string()));
    }
    Ok(out)
}

/// The export line for `var` of `namespace`, given what reading it gave:
/// `var=value` when the value is UTF-8; a non-UTF-8 value is refused with
/// `Invalid`; a failed read is returned as it is.
pub fn export_line(namespace: &str, var: &str, read: Result<SecretValue>) -> (r: Result<String>)
    ensures
        read matches Ok(v) ==> if valid_utf8(v@) {
            r matches Ok(l) && l@ == var@ + "="@ + decode_utf8(v@) + "\n"@
        } else {
            r matches Err(Error::Invalid(m)) && m@ == non_utf8_text(namespace@, var@)
        },
        read matches Err(e) ==> r == Err::<String, Error>(e),
{
    let value = match read {
        Ok(v) => v,
        Err(e) => {
            return Err(e);
        },
    };
    match value.to_utf8() {
        Some(s) => {
            let mut l = String::new();
            l.append(var);
            l.append("=");
            l.append(s.as_str());
            l.append("\n");
            Ok(l)
        },
        None => {
            let mut m = String::new();
            m.append("non-UTF-8 value at ");
            m.append(namespace);
            m.append("/");
            m.append(var);
            m.append(" cannot be exported");
            Err(Error::Invalid(m))
        },
    }
}

/// Why an export stopped: a vault call's error, or a value that is not UTF-8.
pub enum ExportStop {
    Failed(Error),
    NonUtf8(Seq<char>, Seq<char>),
}

/// The line for `var` of `namespace` when reading it answered `read`.
pub open spec fn line_of(namespace: Seq<char>, var: Seq<char>, read: Result<SecretValue>) -> core::result::Result<
    Seq<char>,
    ExportStop,
> {
    match read {
        Err(e) => Err(ExportStop::Failed(e)),
        Ok(v) => if valid_utf8(v@) {
            Ok(var + "="@ + decode_utf8(v@) + "\n"@)
        } else {
            Err(ExportStop::NonUtf8(namespace, var))
        },
    }
}

/// The lines for the first `reads.len()` of `vars` in `namespace` when
/// reading them answered `reads`, or why they stopped.
pub open spec fn lines_of(namespace: Seq<char>, vars: Seq<Seq<char>>, reads: Seq<Result<SecretValue>>) -> core::result::Result<
    Seq<char>,
    ExportStop,
>
    decreases reads.len(),
{
    if reads.len() == 0 {
        Ok(Seq::empty())
    } else {
        match lines_of(namespace, vars, reads.drop_last()) {
            Err(s) => Err(s),
            Ok(t) => match line_of(namespace, vars[reads.len() - 1], reads.last()) {
                Err(s) => Err(s),
                Ok(l) => Ok(t + l),
            },
        }
    }
}

/// The section for `namespace` when listing its variables answered `listed`
/// and reading them answered `reads`, or why it stopped.
pub open spec fn block_of(namespace: Seq<char>, listed: Result<Vec<String>>, reads: Seq<Result<SecretValue>>) -> core::result::Result<
    Seq<char>,
    ExportStop,
> {
    match listed {
        Err(e) => Err(ExportStop::Failed(e)),
        Ok(vs) => match lines_of(namespace, sorted_listing(views(vs@).to_set()), reads) {
            Err(s) => Err(s),
            Ok(t) => Ok("# namespace: "@ + namespace + "\n"@ + t + "\n"@),
        },
    }
}

/// The plain export of the first `lists.len()` of `nss` when listing their
/// variables answered `lists` and reading those answered `reads`.
pub open spec fn blocks_of(
    nss: Seq<Seq<char>>,
    lists: Seq<Result<Vec<String>>>,
    reads: Seq<Seq<Result<SecretValue>>>,
) -> core::result::Result<Seq<char>, ExportStop>
    decreases lists.len(),
{
    if lists.len() == 0 {
        Ok(Seq::empty())
    } else {
        match blocks_of(nss, lists.drop_last(), reads.drop_last()) {
            Err(s) => Err(s),
            Ok(t) => match block_of(nss[lists.len() - 1], lists.last(), reads.last()) {
                Err(s) => Err(s),
                Ok(b) => Ok(t + b),
            },
        }
    }
}

/// The namespaces an export visits: those asked for, or those listing the
/// namespaces answered; sorted, each once.
pub open spec fn visited(requested: Seq<Seq<char>>, listing: Result<Vec<String>>) -> Seq<Seq<char>> {
    if requested.len() == 0 {
        match listing {
            Ok(ls) => sorted_listing(views(ls@).to_set()),
            Err(_) => Seq::empty(),
        }
    } else {
        sorted_listing(requested.to_set())
    }
}

/// The plain export, or why it stopped, given the vault's answers.
pub open spec fn plain_export(
    requested: Seq<Seq<char>>,
    listing: Result<Vec<String>>,
    lists: Seq<Result<Vec<String>>>,
    reads: Seq<Seq<Result<SecretValue>>>,
) -> core::result::Result<Seq<char>, ExportStop> {
    if requested.len() == 0 && listing is Err {
        Err(ExportStop::Failed(listing->Err_0))
    } else {
        blocks_of(visited(requested, listing), lists, reads)
    }
}

/// The answers fit the calls an export makes: every namespace visited and
/// every variable read, unless the export stopped.
pub open spec fn export_answers_fit(
    requested: Seq<Seq<char>>,
    listing: Result<Vec<String>>,
    lists: Seq<Result<Vec<String>>>,
    reads: Seq<Seq<Result<SecretValue>>>,
) -> bool {
    let nss = visited(requested, listing);
    &&& lists.len() <= nss.len()
    &&& reads.len() == lists.len()
    &&& lists.len() < nss.len() ==> blocks_of(nss, lists, reads) is Err
    &&& forall|k: int|
        0 <= k < lists.len() ==> (#[trigger] lists[k] matches Ok(vs) ==> {
            let vars = sorted_listing(views(vs@).to_set());
            &&& reads[k].len() <= vars.len()
            &&& reads[k].len() < vars.len() ==> lines_of(nss[k], vars, reads[k]) is Err
        })
}

/// `r` is what an export in `format` gives from `plain`: the error that
/// stopped it, or its bytes (encrypted to the passphrase for `Encrypted`).
pub open spec fn gives_export(
    r: Result<Vec<u8>>,
    plain: core::result::Result<Seq<char>, ExportStop>,
    format: ExportFormat,
    passphrase: Option<&str>,
) -> bool {
    match plain {
        Err(ExportStop::Failed(e)) => r == Err::<Vec<u8>, Error>(e),
        Err(ExportStop::NonUtf8(ns, var)) => r matches Err(Error::Invalid(m)) && m@
            == non_utf8_text(ns, var),
        Ok(text) => match format {
            ExportFormat::EnvPlain => r matches Ok(b) && b@ == encode_utf8(text),
            ExportFormat::Encrypted => match passphrase {
                None => r matches Err(Error::Invalid(m)) && m@
                    == "Encrypted export requires a passphrase"@,
                Some(p) => if p@.len() == 0 {
                    r matches Err(Error::Invalid(m)) && m@ == "passphrase must be non-empty"@
                } else {
                    r matches Ok(b) && age_decrypt(b@, p@) == Some(encode_utf8(text))
                },
            },
        },
    }
}

/// The encrypted export decrypts to the plain export: when both exports of
/// the same answers went through (`plain` is the text), the plain one is the
/// text's bytes and the encrypted one, for any non-empty passphrase, is
/// there and decrypts with it to those same bytes.
pub proof fn law_encrypted_export_decrypts_to_plain(
    plain_result: Result<Vec<u8>>,
    encrypted_result: Result<Vec<u8>>,
    text: Seq<char>,
    passphrase: &str,
)
    requires
        gives_export(plain_result, Ok(text), ExportFormat::EnvPlain, None),
        gives_export(encrypted_result, Ok(text), ExportFormat::Encrypted, Some(passphrase)),
        passphrase@.len() > 0,
    ensures
        plain_result matches Ok(b) && b@ == encode_utf8(text),
        encrypted_result matches Ok(c) && age_decrypt(c@, passphrase@) == Some(
            plain_result->Ok_0@,
        ),
{
}

/// The strings of `v`, sorted, each once.
fn sorted_unique(v: &[String]) -> (s: Vec<String>)
    ensures
        strictly_sorted(views(s@)),
        views(s@).to_set() == views(v@).to_set(),
{
    let mut out: Vec<String> = Vec::new();
    let mut i: usize = 0;
    while i < v.len()
        invariant
            i <= v@.len(),
            strictly_sorted(views(out@)),
            views(out@).to_set() == views(v@.take(i as int)).to_set(),
        decreases v.len() - i,
    {
        insert_sorted(&mut out, v[i].clone());
        assert(views(v@.take(i + 1)) =~= views(v@.take(i as int)).push(v@[i as int]@));
        proof {
            views(v@.take(i as int)).lemma_push_to_set_commute(v@[i as int]@);
        }
        i = i + 1;
    }
    assert(v@.take(v@.len() as int) =~= v@);
    out
}

/// Produce the export bytes for `vault`: the namespaces asked for (all when
/// `namespaces` is empty), sorted and each once, their variables sorted.
/// Whatever the vault, the text is what `plain_export` gives for the answers
/// its listings and reads gave, and the first failed call is returned.
pub fn export_to_bytes<V: Vault + ?Sized>(
    vault: &V,
    namespaces: &[String],
    format: ExportFormat,
    passphrase: Option<&str>,
) -> (r: Result<Vec<u8>>)
    ensures
        format == ExportFormat::Encrypted ==> (r is Ok ==> (passphrase matches Some(p) && p@.len()
            > 0)),
        vault.is_modeled() ==> ({
            let c = vault.contents();
            let nss = export_namespaces(c, views(namespaces@));
            &&& r is Ok ==> first_non_utf8(c, nss) is None
            &&& format == ExportFormat::EnvPlain ==> (r matches Ok(b) ==> b@ == encode_utf8(
                export_text(c, nss),
            ))
            &&& format == ExportFormat::Encrypted ==> (r matches Ok(b) ==> (passphrase matches Some(
                p,
            ) && age_decrypt(b@, p@) == Some(encode_utf8(export_text(c, nss)))))
        }),
        exact(vault) ==> ({
            let c = vault.contents();
            let nss = export_namespaces(c, views(namespaces@));
            match first_non_utf8(c, nss) {
                Some(bad) => r matches Err(Error::Invalid(m)) && m@ == non_utf8_text(bad.0, bad.1),
                None => match format {
                    ExportFormat::EnvPlain => r is Ok,
                    ExportFormat::Encrypted => match passphrase {
                        None => r matches Err(Error::Invalid(m)) && m@
                            == "Encrypted export requires a passphrase"@,
                        Some(p) => if p@.len() == 0 {
                            r matches Err(Error::Invalid(m)) && m@ == "passphrase must be non-empty"@
                        } else {
                            r matches Ok(b) && age_decrypt(b@, p@) == Some(
                                encode_utf8(export_text(c, nss)),
                            )
                        },
                    },
                },
            }
        }),
        exists|
            listing: Result<Vec<String>>,
            lists: Seq<Result<Vec<String>>>,
            reads: Seq<Seq<Result<SecretValue>>>,
        |
            #![trigger plain_export(views(namespaces@), listing, lists, reads)]
            export_answers_fit(views(namespaces@), listing, lists, reads) && gives_export(
                r,
                plain_export(views(namespaces@), listing, lists, reads),
                format,
                passphrase,
            ),
{
    let ghost c = vault.contents();
    let ghost modeled = vault.is_modeled();
    let ghost req = views(namespaces@);
    let ghost mut got_listing: Result<Vec<String>> = vstd::pervasive::arbitrary();
    let nss = if namespaces.len() == 0 {
        let listing = vault.list_namespaces();
        proof {
            got_listing = listing;
        }
        let listed = match listing {
            Ok(v) => v,
            Err(e) => {
                assert(export_answers_fit(req, got_listing, Seq::empty(), Seq::empty()));
                assert(gives_export(
                    Err(e),
                    plain_export(req, got_listing, Seq::empty(), Seq::empty()),
                    format,
                    passphrase,
                ));
                return Err(e);
            },
        };
        let s = sorted_unique(listed.as_slice());
        proof {
            lemma_sorted_listing(views(listed@));
            lemma_sorted_listing(views(s@));
        }
        s
    } else {
        let s = sorted_unique(namespaces);
        proof {
            lemma_sorted_listing(views(s@));
        }
        s
    };
    let ghost ns_seq = views(nss@);
    assert(modeled ==> ns_seq == export_namespaces(c, views(namespaces@)));
    assert(ns_seq == visited(req, got_listing));
    let mut text = String::new();
    let mut i: usize = 0;
    let ghost mut lists: Seq<Result<Vec<String>>> = Seq::empty();
    let ghost mut reads: Seq<Seq<Result<SecretValue>>> = Seq::empty();
    assert(ns_seq.take(0) =~= Seq::<Seq<char>>::empty());
    assert(ns_seq.skip(0) =~= ns_seq);
    while i < nss.len()
        invariant
            i <= nss@.len(),
            ns_seq == views(nss@),
            modeled == vault.is_modeled(),
            c == vault.contents(),
            req == views(namespaces@),
            ns_seq == visited(req, got_listing),
            req.len() == 0 ==> got_listing is Ok,
            lists.len() == i,
            reads.len() == i,
            blocks_of(ns_seq, lists, reads) == Ok::<Seq<char>, ExportStop>(text@),
            forall|k: int|
                0 <= k < lists.len() ==> (#[trigger] lists[k] matches Ok(vs) ==> {
                    let vars = sorted_listing(views(vs@).to_set());
                    &&& reads[k].len() <= vars.len()
                    &&& reads[k].len() < vars.len() ==> lines_of(ns_seq[k], vars, reads[k]) is Err
                }),
            modeled ==> ns_seq == export_namespaces(c, views(namespaces@)),
            modeled ==> text@ == export_text(c, ns_seq.take(i as int)),
            modeled ==> first_non_utf8(c, ns_seq) == first_non_utf8(c, ns_seq.skip(i as int)),
        decreases nss.len() - i,
    {
        let ns = nss[i].as_str();
        let ghost base = text@;
        let ghost prev_lists = lists;
        let ghost prev_reads = reads;
        assert(ns_seq[i as int] == ns@);
        text.append("# namespace: ");
        text.append(ns);
        text.append("\n");
        let list_answer = vault.list_vars(ns);
        let ghost got_list = list_answer;
        let listed = match list_answer {
            Ok(v) => v,
            Err(e) => {
                proof {
                    lists = lists.push(got_list);
                    reads = reads.push(Seq::empty());
                    assert(lists.drop_last() =~= prev_lists);
                    assert(reads.drop_last() =~= prev_reads);
                    assert forall|k: int| 0 <= k < lists.len() implies (#[trigger] lists[k] matches Ok(
                        vs,
                    ) ==> {
                        let vars = sorted_listing(views(vs@).to_set());
                        &&& reads[k].len() <= vars.len()
                        &&& reads[k].len() < vars.len() ==> lines_of(ns_seq[k], vars, reads[k]) is Err
                    }) by {
                        if k < i {
                            assert(lists[k] == prev_lists[k]);
                            assert(reads[k] == prev_reads[k]);
                        }
                    }
                }
                assert(export_answers_fit(req, got_listing, lists, reads));
                assert(gives_export(
                    Err(e),
                    plain_export(req, got_listing, lists, reads),
                    format,
                    passphrase,
                ));
                return Err(e);
            },
        };
        let vars = sorted_unique(listed.as_slice());
        proof {
            lemma_sorted_listing(views(listed@));
            lemma_sorted_listing(views(vars@));
        }
        let ghost vs = views(vars@);
        assert(vs == sorted_listing(views(listed@).to_set()));
        assert(modeled ==> vs == sorted_listing(vars_of(c, ns@)));
        let ghost head = text@;
        let ghost mut cur: Seq<Result<SecretValue>> = Seq::empty();
        let ghost mut t: Seq<char> = Seq::empty();
        let mut j: usize = 0;
        assert(vs.take(0) =~= Seq::<Seq<char>>::empty());
        assert(vs.skip(0) =~= vs);
        assert(head =~= head + t);
        while j < vars.len()
            invariant
                j <= vars@.len(),
                vs == views(vars@),
                modeled == vault.is_modeled(),
                c == vault.contents(),
                i < nss@.len(),
                ns@ == ns_seq[i as int],
                ns_seq == views(nss@),
                cur.len() == j,
                lists == prev_lists,
                reads == prev_reads,
                lists.len() == i,
                reads.len() == i,
                req == views(namespaces@),
                ns_seq == visited(req, got_listing),
                req.len() == 0 ==> got_listing is Ok,
                blocks_of(ns_seq, lists, reads) == Ok::<Seq<char>, ExportStop>(base),
                head == base + "# namespace: "@ + ns@ + "\n"@,
                got_list == Ok::<Vec<String>, Error>(listed),
                vs == sorted_listing(views(listed@).to_set()),
                forall|k: int|
                    0 <= k < lists.len() ==> (#[trigger] lists[k] matches Ok(vs2) ==> {
                        let vars2 = sorted_listing(views(vs2@).to_set());
                        &&& reads[k].len() <= vars2.len()
                        &&& reads[k].len() < vars2.len() ==> lines_of(ns_seq[k], vars2, reads[k]) is Err
                    }),
                lines_of(ns@, vs, cur) == Ok::<Seq<char>, ExportStop>(t),
                text@ == head + t,
                modeled ==> vs == sorted_listing(vars_of(c, ns@)),
                modeled ==> vs.to_set() == vars_of(c, ns@),
                modeled ==> text@ == head + var_lines(c, ns@, vs.take(j as int)),
                modeled ==> first_non_utf8_var(c, ns@, vs) == first_non_utf8_var(
                    c,
                    ns@,
                    vs.skip(j as int),
                ),
                modeled ==> ns_seq == export_namespaces(c, views(namespaces@)),
                modeled ==> first_non_utf8(c, ns_seq) == first_non_utf8(c, ns_seq.skip(i as int)),
            decreases vars.len() - j,
        {
            let var = vars[j].as_str();
            assert(vs.skip(j as int)[0] == var@);
            assert(vs.skip(j as int).drop_first() =~= vs.skip(j + 1));
            assert(vs.to_set().contains(var@)) by {
                assert(vs[j as int] == var@);
            }
            assert(modeled ==> c.contains_key((ns@, var@)));
            let read = vault.get(ns, var);
            let ghost got = read;
            let ghost prev_cur = cur;
            proof {
                cur = cur.push(got);
                assert(cur.drop_last() =~= prev_cur);
                assert(vs[j as int] == var@);
            }
            let line = match export_line(ns, var, read) {
                Ok(l) => l,
                Err(e) => {
                    proof {
                        if modeled && got is Ok {
                            assert(first_non_utf8_var(c, ns@, vs) == Some(var@));
                            assert(ns_seq.skip(i as int)[0] == ns@);
                            assert(first_non_utf8(c, ns_seq) == Some((ns@, var@)));
                        }
                        lists = lists.push(got_list);
                        reads = reads.push(cur);
                        assert(lists.drop_last() =~= prev_lists);
                        assert(reads.drop_last() =~= prev_reads);
                        assert forall|k: int| 0 <= k < lists.len() implies (
                        #[trigger] lists[k] matches Ok(vs2) ==> {
                            let vars2 = sorted_listing(views(vs2@).to_set());
                            &&& reads[k].len() <= vars2.len()
                            &&& reads[k].len() < vars2.len() ==> lines_of(
                                ns_seq[k],
                                vars2,
                                reads[k],
                            ) is Err
                        }) by {
                            if k < i {
                                assert(lists[k] == prev_lists[k]);
                                assert(reads[k] == prev_reads[k]);
                            }
                        }
                    }
                    assert(export_answers_fit(req, got_listing, lists, reads));
                    assert(gives_export(
                        Err(e),
                        plain_export(req, got_listing, lists, reads),
                        format,
                        passphrase,
                    ));
                    return Err(e);
                },
            };
            text.append(line.as_str());
            proof {
                t = t + line@;
                assert(text@ =~= head + t);
            }
            assert(vs.take(j + 1).drop_last() =~= vs.take(j as int));
            assert(vs.take(j + 1).last() == var@);
            assert(modeled ==> text@ =~= head + var_lines(c, ns@, vs.take(j + 1)));
            j = j + 1;
        }
        assert(vs.take(vars@.len() as int) =~= vs);
        assert(vs.skip(vars@.len() as int) =~= Seq::<Seq<char>>::empty());
        text.append("\n");
        proof {
            lists = lists.push(got_list);
            reads = reads.push(cur);
            assert(lists.drop_last() =~= prev_lists);
            assert(reads.drop_last() =~= prev_reads);
            assert(text@ =~= base + ("# namespace: "@ + ns@ + "\n"@ + t + "\n"@));
            assert forall|k: int| 0 <= k < lists.len() implies (#[trigger] lists[k] matches Ok(
                vs2,
            ) ==> {
                let vars2 = sorted_listing(views(vs2@).to_set());
                &&& reads[k].len() <= vars2.len()
                &&& reads[k].len() < vars2.len() ==> lines_of(ns_seq[k], vars2, reads[k]) is Err
            }) by {
                if k < i {
                    assert(lists[k] == prev_lists[k]);
                    assert(reads[k] == prev_reads[k]);
                }
            }
        }
        assert(ns_seq.take(i + 1).drop_last() =~= ns_seq.take(i as int));
        assert(ns_seq.take(i + 1).last() == ns@);
        assert(modeled ==> text@ =~= export_text(c, ns_seq.take(i + 1)));
        assert(ns_seq.skip(i as int)[0] == ns@);
        assert(ns_seq.skip(i as int).drop_first() =~= ns_seq.skip(i + 1));
        i = i + 1;
    }
    assert(ns_seq.take(nss@.len() as int) =~= ns_seq);
    assert(ns_seq.skip(nss@.len() as int) =~= Seq::<Seq<char>>::empty());
    assert(export_answers_fit(req, got_listing, lists, reads));
    assert(plain_export(req, got_listing, lists, reads) == Ok::<Seq<char>, ExportStop>(text@));
    let r = match format {
        ExportFormat::EnvPlain => Ok(string_into_bytes(text)),
        ExportFormat::Encrypted => match passphrase {
            None => {
                let mut m = String::new();
                m.append("Encrypted export requires a passphrase");
                Err(Error::Invalid(m))
            },
            Some(pass) => {
                if pass.is_empty() {
                    let mut m = String::new();
                    m.append("passphrase must be non-empty");
                    Err(Error::Invalid(m))
                } else {
                    let bytes = string_into_bytes(text);
                    match age_encrypt(bytes.as_slice(), pass) {
                        Ok(out) => Ok(out),
                        Err(AgeFailure::Setup(e)) => {
                            let mut m = String::new();
                            m.append("age encrypt setup: ");
                            m.append(e.as_str());
                            Err(Error::Invalid(m))
                        },
                        Err(AgeFailure::Write(e)) => Err(Error::Io(e)),
                        Err(AgeFailure::Finish(e)) => {
                            let mut m = String::new();
                            m.append("age encrypt finish: ");
                            m.append(e.as_str());
                            Err(Error::Invalid(m))
                        },
                    }
                }
            },
        },
    };
    assert(gives_export(r, plain_export(req, got_listing, lists, reads), format, passphrase));
    r
}

} // verus!
