use vstd::prelude::*;

verus! {

// ---------------------------------------------------------------------------
// Certificate data model
// ---------------------------------------------------------------------------

/// An X.509 name as this proxy uses it: a common name and an organization.
pub struct CertName {
    pub common_name: String,
    pub organization: String,
}

/// Mathematical image of a name.
pub struct CertNameV {
    pub common_name: Seq<char>,
    pub organization: Seq<char>,
}

pub open spec fn name_v(n: CertName) -> CertNameV {
    CertNameV { common_name: n.common_name@, organization: n.organization@ }
}

#[derive(Clone, Copy, Debug, PartialEq, Eq)]
pub enum KeyUsageBit {
    DigitalSignature,
    NonRepudiation,
    KeyEncipherment,
    KeyCertSign,
    CrlSign,
}

#[derive(Clone, Copy, Debug, PartialEq, Eq)]
pub enum ExtKeyUsageKind {
    ServerAuth,
    ClientAuth,
}

#[derive(Clone, Copy, Debug, PartialEq, Eq)]
pub enum ExtensionKind {
    BasicConstraints,
    KeyUsage,
    SubjectKeyId,
    AuthorityKeyId,
    SubjectAltName,
    ExtendedKeyUsage,
}

#[derive(Clone, Copy, Debug, PartialEq, Eq)]
pub enum KeyAlgorithm {
    Rsa,
}

#[derive(Clone, Copy, Debug, PartialEq, Eq)]
pub enum SignatureDigest {
    Sha256,
}

/// Everything the signer needs to build one certificate: names, the key
/// algorithm and size, serial width, validity, the X.509 version, the
/// signing digest, flags, and the extensions in emission order.  The
/// cryptographic work on a template happens outside the library; what the
/// template says is fixed here.
pub struct CertTemplate {
    pub subject: CertName,
    pub issuer: CertName,
    pub key_algorithm: KeyAlgorithm,
    pub key_bits: u32,
    pub serial_bits: u32,
    pub validity_days: u32,
    pub x509_version: u32,
    pub signature_digest: SignatureDigest,
    pub is_ca: bool,
    pub basic_constraints_critical: bool,
    pub san: Vec<String>,
    pub key_usage: Vec<KeyUsageBit>,
    pub key_usage_critical: bool,
    pub ext_key_usage: Vec<ExtKeyUsageKind>,
    pub extension_order: Vec<ExtensionKind>,
}

/// Mathematical image of a template.
pub struct CertTemplateV {
    pub subject: CertNameV,
    pub issuer: CertNameV,
    pub key_algorithm: KeyAlgorithm,
    pub key_bits: int,
    pub serial_bits: int,
    pub validity_days: int,
    pub x509_version: int,
    pub signature_digest: SignatureDigest,
    pub is_ca: bool,
    pub basic_constraints_critical: bool,
    pub san: Seq<Seq<char>>,
    pub key_usage: Seq<KeyUsageBit>,
    pub key_usage_critical: bool,
    pub ext_key_usage: Seq<ExtKeyUsageKind>,
    pub extension_order: Seq<ExtensionKind>,
}

pub open spec fn template_v(t: CertTemplate) -> CertTemplateV {
    CertTemplateV {
        subject: name_v(t.subject),
        issuer: name_v(t.issuer),
        key_algorithm: t.key_algorithm,
        key_bits: t.key_bits as int,
        serial_bits: t.serial_bits as int,
        validity_days: t.validity_days as int,
        x509_version: t.x509_version as int,
        signature_digest: t.signature_digest,
        is_ca: t.is_ca,
        basic_constraints_critical: t.basic_constraints_critical,
        san: t.san@.map_values(|s: String| s@),
        key_usage: t.key_usage@,
        key_usage_critical: t.key_usage_critical,
        ext_key_usage: t.ext_key_usage@,
        extension_order: t.extension_order@,
    }
}

/// The leaf template for one host: an X.509 v3 certificate over a fresh
/// RSA-4096 key, signed with SHA-256; subject CN = host, issuer = the
/// root's subject, 159-bit serial, 90 days of validity, non-critical
/// non-CA basic constraints, SAN = {host, *.host}, key usage
/// {digitalSignature, nonRepudiation, keyEncipherment} critical, extended
/// key usage {serverAuth, clientAuth}, extensions in the fixed order.
pub open spec fn spec_leaf_template(host: Seq<char>, root_subject: CertNameV) -> CertTemplateV {
    CertTemplateV {
        subject: CertNameV { common_name: host, organization: "Boring Proxy"@ },
        issuer: root_subject,
        key_algorithm: KeyAlgorithm::Rsa,
        key_bits: 4096,
        serial_bits: 159,
        validity_days: 90,
        x509_version: 3,
        signature_digest: SignatureDigest::Sha256,
        is_ca: false,
        basic_constraints_critical: false,
        san: seq![host, "*."@ + host],
        key_usage: seq![
            KeyUsageBit::DigitalSignature,
            KeyUsageBit::NonRepudiation,
            KeyUsageBit::KeyEncipherment,
        ],
        key_usage_critical: true,
        ext_key_usage: seq![ExtKeyUsageKind::ServerAuth, ExtKeyUsageKind::ClientAuth],
        extension_order: seq![
            ExtensionKind::BasicConstraints,
            ExtensionKind::KeyUsage,
            ExtensionKind::SubjectKeyId,
            ExtensionKind::AuthorityKeyId,
            ExtensionKind::SubjectAltName,
            ExtensionKind::ExtendedKeyUsage,
        ],
    }
}

/// The root template: a self-signed X.509 v3 CA certificate for the proxy
/// itself, over an RSA-4096 key, signed with SHA-256, its basic
/// constraints (CA: true) critical.
pub open spec fn spec_root_template() -> CertTemplateV {
    CertTemplateV {
        subject: CertNameV {
            common_name: "<BORING-PROXY CA>"@,
            organization: "Boring Proxy"@,
        },
        issuer: CertNameV {
            common_name: "<BORING-PROXY CA>"@,
            organization: "Boring Proxy"@,
        },
        key_algorithm: KeyAlgorithm::Rsa,
        key_bits: 4096,
        serial_bits: 159,
        validity_days: 90,
        x509_version: 3,
        signature_digest: SignatureDigest::Sha256,
        is_ca: true,
        basic_constraints_critical: true,
        san: Seq::empty(),
        key_usage: seq![KeyUsageBit::KeyCertSign, KeyUsageBit::CrlSign],
        key_usage_critical: true,
        ext_key_usage: Seq::empty(),
        extension_order: seq![
            ExtensionKind::BasicConstraints,
            ExtensionKind::KeyUsage,
            ExtensionKind::SubjectKeyId,
        ],
    }
}

fn clone_name(n: &CertName) -> (r: CertName)
    ensures
        name_v(r) == name_v(*n),
{
    CertName {
        common_name: n.common_name.clone(),
        organization: n.organization.clone(),
    }
}

/// Builds the leaf template for a host under the given root subject.
pub fn leaf_template(host: &String, root_subject: &CertName) -> (t: CertTemplate)
    ensures
        template_v(t) == spec_leaf_template(host@, name_v(*root_subject)),
{
    let mut wildcard = String::from_str("*.");
    wildcard.append(host.as_str());
    let mut san: Vec<String> = Vec::new();
    san.push(host.clone());
    san.push(wildcard);
    let mut key_usage: Vec<KeyUsageBit> = Vec::new();
    key_usage.push(KeyUsageBit::DigitalSignature);
    key_usage.push(KeyUsageBit::NonRepudiation);
    key_usage.push(KeyUsageBit::KeyEncipherment);
    let mut ext_key_usage: Vec<ExtKeyUsageKind> = Vec::new();
    ext_key_usage.push(ExtKeyUsageKind::ServerAuth);
    ext_key_usage.push(ExtKeyUsageKind::ClientAuth);
    let mut extension_order: Vec<ExtensionKind> = Vec::new();
    extension_order.push(ExtensionKind::BasicConstraints);
    extension_order.push(ExtensionKind::KeyUsage);
    extension_order.push(ExtensionKind::SubjectKeyId);
    extension_order.push(ExtensionKind::AuthorityKeyId);
    extension_order.push(ExtensionKind::SubjectAltName);
    extension_order.push(ExtensionKind::ExtendedKeyUsage);
    let t = CertTemplate {
        subject: CertName {
            common_name: host.clone(),
            organization: String::from_str("Boring Proxy"),
        },
        issuer: clone_name(root_subject),
        key_algorithm: KeyAlgorithm::Rsa,
        key_bits: 4096,
        serial_bits: 159,
        validity_days: 90,
        x509_version: 3,
        signature_digest: SignatureDigest::Sha256,
        is_ca: false,
        basic_constraints_critical: false,
        san,
        key_usage,
        key_usage_critical: true,
        ext_key_usage,
        extension_order,
    };
    proof {
        assert(template_v(t).san =~= spec_leaf_template(host@, name_v(*root_subject)).san);
        assert(template_v(t).key_usage =~= spec_leaf_template(
            host@,
            name_v(*root_subject),
        ).key_usage);
        assert(template_v(t).ext_key_usage =~= spec_leaf_template(
            host@,
            name_v(*root_subject),
        ).ext_key_usage);
        assert(template_v(t).extension_order =~= spec_leaf_template(
            host@,
            name_v(*root_subject),
        ).extension_order);
    }
    t
}

/// Builds the self-signed root template.
pub fn root_template() -> (t: CertTemplate)
    ensures
        template_v(t) == spec_root_template(),
{
    let mut key_usage: Vec<KeyUsageBit> = Vec::new();
    key_usage.push(KeyUsageBit::KeyCertSign);
    key_usage.push(KeyUsageBit::CrlSign);
    let mut extension_order: Vec<ExtensionKind> = Vec::new();
    extension_order.push(ExtensionKind::BasicConstraints);
    extension_order.push(ExtensionKind::KeyUsage);
    extension_order.push(ExtensionKind::SubjectKeyId);
    let t = CertTemplate {
        subject: CertName {
            common_name: String::from_str("<BORING-PROXY CA>"),
            organization: String::from_str("Boring Proxy"),
        },
        issuer: CertName {
            common_name: String::from_str("<BORING-PROXY CA>"),
            organization: String::from_str("Boring Proxy"),
        },
        key_algorithm: KeyAlgorithm::Rsa,
        key_bits: 4096,
        serial_bits: 159,
        validity_days: 90,
        x509_version: 3,
        signature_digest: SignatureDigest::Sha256,
        is_ca: true,
        basic_constraints_critical: true,
        san: Vec::new(),
        key_usage,
        key_usage_critical: true,
        ext_key_usage: Vec::new(),
        extension_order,
    };
    proof {
        assert(template_v(t).san =~= spec_root_template().san);
        assert(template_v(t).key_usage =~= spec_root_template().key_usage);
        assert(template_v(t).ext_key_usage =~= spec_root_template().ext_key_usage);
        assert(template_v(t).extension_order =~= spec_root_template().extension_order);
    }
    t
}

// ---------------------------------------------------------------------------
// Root materialisation
// ---------------------------------------------------------------------------

/// The root CA as the library holds it: the certificate in DER and PEM, and
/// its subject name, under which every leaf is issued.
pub struct RootMaterial {
    pub cert_der: Vec<u8>,
    pub cert_pem: String,
    pub subject: CertName,
}

/// Mathematical image of the root material.
pub struct RootV {
    pub cert_der: Seq<u8>,
    pub cert_pem: Seq<char>,
    pub subject: CertNameV,
}

pub open spec fn root_v(r: RootMaterial) -> RootV {
    RootV { cert_der: r.cert_der@, cert_pem: r.cert_pem@, subject: name_v(r.subject) }
}

/// What init does at startup: load the persisted pair only when both files
/// are present; any partial presence is overwritten by a fresh pair.
#[derive(Clone, Copy, Debug, PartialEq, Eq)]
pub enum CaInitAction {
    LoadExisting,
    GenerateNew,
}

pub fn ca_init_action(have_cert: bool, have_key: bool) -> (r: CaInitAction)
    ensures
        (r is LoadExisting) <==> (have_cert && have_key),
{
    if have_cert && have_key {
        CaInitAction::LoadExisting
    } else {
        CaInitAction::GenerateNew
    }
}

pub open spec fn spec_resolve_root(existing: Option<RootV>, fresh: RootV) -> RootV {
    match existing {
        Option::Some(r) => r,
        Option::None => fresh,
    }
}

/// The root the process runs with: the loaded one when the disk held a pair,
/// else the freshly generated one.
pub fn resolve_root(existing: Option<RootMaterial>, fresh: RootMaterial) -> (r: RootMaterial)
    ensures
        root_v(r) == spec_resolve_root(
            match existing {
                Option::Some(e) => Option::Some(root_v(e)),
                Option::None => Option::None,
            },
            root_v(fresh),
        ),
{
    match existing {
        Some(e) => e,
        None => fresh,
    }
}

/// The law of idempotent materialisation: when a persisted root exists it is
/// loaded unchanged, so a second startup over the files the first one wrote
/// runs with a byte-identical root.
pub proof fn lemma_ca_init_idempotent(persisted: RootV, fresh: RootV)
    ensures
        spec_resolve_root(Option::Some(persisted), fresh) == persisted,
{
}

// ---------------------------------------------------------------------------
// The leaf cache
// ---------------------------------------------------------------------------

/// Leaf entries live for 89 days, one day under their validity.
pub const CERT_TTL_MS: u64 = 89 * 24 * 60 * 60 * 1000;

/// The cache holds at most 8192 leaves; the oldest entry leaves first.
pub const CERT_CACHE_CAP: usize = 8192;

/// One cached leaf: the signed certificate and its key in DER, and when it
/// was minted.
pub struct CacheEntry {
    pub host: String,
    pub leaf_der: Vec<u8>,
    pub key_der: Vec<u8>,
    pub inserted_at: u64,
}

/// Mathematical image of one cached leaf.
pub struct LeafV {
    pub leaf: Seq<u8>,
    pub key: Seq<u8>,
    pub inserted: int,
}

pub open spec fn cache_entry_v(e: CacheEntry) -> (Seq<char>, LeafV) {
    (e.host@, LeafV { leaf: e.leaf_der@, key: e.key_der@, inserted: e.inserted_at as int })
}

/// Index of the entry for `h`, or -1.
pub open spec fn cache_find(t: Seq<(Seq<char>, LeafV)>, h: Seq<char>) -> int
    decreases t.len(),
{
    if t.len() == 0 {
        -1
    } else if t[0].0 == h {
        0
    } else {
        let r = cache_find(t.drop_first(), h);
        if r == -1 { -1 } else { r + 1 }
    }
}

pub open spec fn cache_live(e: LeafV, now: int) -> bool {
    now - e.inserted < CERT_TTL_MS
}

/// One mint step on the cache model: a live hit leaves the cache unchanged;
/// a stale entry is replaced in place; a miss inserts, evicting the front
/// entry when the cache is full.
pub open spec fn spec_mint(
    t: Seq<(Seq<char>, LeafV)>,
    h: Seq<char>,
    now: int,
    leaf: Seq<u8>,
    key: Seq<u8>,
) -> Seq<(Seq<char>, LeafV)> {
    let i = cache_find(t, h);
    if i >= 0 && cache_live(t[i].1, now) {
        t
    } else if i >= 0 {
        t.update(i, (h, LeafV { leaf, key, inserted: now }))
    } else if t.len() >= CERT_CACHE_CAP {
        t.drop_first().push((h, LeafV { leaf, key, inserted: now }))
    } else {
        t.push((h, LeafV { leaf, key, inserted: now }))
    }
}

/// What a mint call hands back: the cached pair on a live hit, else the
/// fresh material.
pub open spec fn spec_mint_leaf(
    t: Seq<(Seq<char>, LeafV)>,
    h: Seq<char>,
    now: int,
    leaf: Seq<u8>,
    key: Seq<u8>,
) -> (Seq<u8>, Seq<u8>) {
    let i = cache_find(t, h);
    if i >= 0 && cache_live(t[i].1, now) {
        (t[i].1.leaf, t[i].1.key)
    } else {
        (leaf, key)
    }
}

pub open spec fn cache_unique_hosts(t: Seq<(Seq<char>, LeafV)>) -> bool {
    forall|i: int, j: int|
        0 <= i < t.len() && 0 <= j < t.len() && i != j ==> (#[trigger] t[i]).0 != (
        #[trigger] t[j]).0
}

pub proof fn lemma_cache_find_spec(t: Seq<(Seq<char>, LeafV)>, h: Seq<char>)
    ensures
        cache_find(t, h) == -1 || (0 <= cache_find(t, h) < t.len()),
        cache_find(t, h) == -1 ==> forall|i: int|
            0 <= i < t.len() ==> (#[trigger] t[i]).0 != h,
        cache_find(t, h) >= 0 ==> t[cache_find(t, h)].0 == h,
    decreases t.len(),
{
    if t.len() == 0 {
    } else if t[0].0 == h {
    } else {
        lemma_cache_find_spec(t.drop_first(), h);
        if cache_find(t, h) == -1 {
            assert forall|i: int| 0 <= i < t.len() implies (#[trigger] t[i]).0 != h by {
                if i > 0 {
                    assert(t.drop_first()[i - 1] == t[i]);
                }
            }
        }
    }
}

pub proof fn lemma_cache_find_unique(t: Seq<(Seq<char>, LeafV)>, h: Seq<char>, i: int)
    requires
        0 <= i < t.len(),
        t[i].0 == h,
        forall|j: int| 0 <= j < i ==> (#[trigger] t[j]).0 != h,
    ensures
        cache_find(t, h) == i,
    decreases t.len(),
{
    if i == 0 {
    } else {
        assert(t[0].0 != h);
        assert(forall|j: int|
            0 <= j < t.drop_first().len() ==> #[trigger] t.drop_first()[j] == t[j + 1]);
        lemma_cache_find_unique(t.drop_first(), h, i - 1);
    }
}

proof fn lemma_cache_find_before(t: Seq<(Seq<char>, LeafV)>, h: Seq<char>, j: int)
    requires
        cache_find(t, h) >= 0,
        0 <= j < cache_find(t, h),
    ensures
        t[j].0 != h,
    decreases t.len(),
{
    lemma_cache_find_spec(t, h);
    if t.len() == 0 {
    } else if t[0].0 == h {
    } else {
        if j > 0 {
            lemma_cache_find_spec(t.drop_first(), h);
            lemma_cache_find_before(t.drop_first(), h, j - 1);
            assert(t.drop_first()[j - 1] == t[j]);
        }
    }
}

fn clone_bytes(v: &Vec<u8>) -> (r: Vec<u8>)
    ensures
        r@ == v@,
{
    let r = v.clone();
    proof {
        assert(r@ =~= v@);
    }
    r
}

// ---------------------------------------------------------------------------
// The certificate manager
// ---------------------------------------------------------------------------

/// Root CA plus the deduplicating leaf cache.  The root is read-only after
/// construction; leaves are minted outside the library from the template
/// this module fixes, and remembered here.
///
/// The cache is held directly as a keyed table rather than behind an
/// outside caching library: a concurrent cache with an admission policy
/// may decline to keep an insert, and no contract over one can promise the
/// single visible leaf per host that mint deduplication demands; this
/// table proves it.
pub struct CertManager {
    root: RootMaterial,
    cache: Vec<CacheEntry>,
}

impl CertManager {
    pub closed spec fn root_view(&self) -> RootV {
        root_v(self.root)
    }

    pub closed spec fn cache_view(&self) -> Seq<(Seq<char>, LeafV)> {
        self.cache@.map_values(|e: CacheEntry| cache_entry_v(e))
    }

    pub closed spec fn wf(&self) -> bool {
        &&& cache_unique_hosts(self.cache_view())
        &&& self.cache_view().len() <= CERT_CACHE_CAP
    }

    /// What well-formedness gives a caller: hosts in the cache are
    /// pairwise distinct and the cache is within its capacity.
    pub proof fn lemma_wf(&self)
        requires
            self.wf(),
        ensures
            cache_unique_hosts(self.cache_view()),
            self.cache_view().len() <= CERT_CACHE_CAP,
    {
    }

    /// A manager around materialised root data, with an empty leaf cache.
    pub fn new(root: RootMaterial) -> (r: CertManager)
        ensures
            r.wf(),
            r.root_view() == root_v(root),
            r.cache_view() =~= Seq::<(Seq<char>, LeafV)>::empty(),
    {
        CertManager { root, cache: Vec::new() }
    }

    /// The PEM of the root certificate, for installation in a client trust
    /// store.
    pub fn get_ca_cert_pem(&self) -> (r: String)
        ensures
            r@ == self.root_view().cert_pem,
    {
        self.root.cert_pem.clone()
    }

    /// The root's subject name, the issuer of every leaf.
    pub fn root_subject(&self) -> (r: &CertName)
        ensures
            name_v(*r) == self.root_view().subject,
    {
        &self.root.subject
    }

    /// The leaf template to sign for this host.
    pub fn template_for(&self, host: &String) -> (t: CertTemplate)
        ensures
            template_v(t) == spec_leaf_template(host@, self.root_view().subject),
    {
        leaf_template(host, &self.root.subject)
    }

    /// The cached chain and key for a host, when a live entry exists.
    pub fn cached_cert(&self, domain: &String, now_ms: u64) -> (r: Option<(Vec<Vec<u8>>, Vec<u8>)>)
        requires
            self.wf(),
        ensures
            match r {
                Option::Some(ck) => {
                    &&& cache_find(self.cache_view(), domain@) >= 0
                    &&& cache_live(
                        self.cache_view()[cache_find(self.cache_view(), domain@)].1,
                        now_ms as int,
                    )
                    &&& ck.0@.len() == 2
                    &&& ck.0@[0]@ == self.cache_view()[cache_find(
                        self.cache_view(),
                        domain@,
                    )].1.leaf
                    &&& ck.0@[1]@ == self.root_view().cert_der
                    &&& ck.1@ == self.cache_view()[cache_find(self.cache_view(), domain@)].1.key
                },
                Option::None => !(cache_find(self.cache_view(), domain@) >= 0 && cache_live(
                    self.cache_view()[cache_find(self.cache_view(), domain@)].1,
                    now_ms as int,
                )),
            },
    {
        let ghost t0 = self.cache_view();
        let n = self.cache.len();
        let mut i: usize = 0;
        let mut found = false;
        while i < n && !found
            invariant
                n == self.cache@.len(),
                t0 == self.cache_view(),
                0 <= i <= n,
                forall|j: int| 0 <= j < i ==> (#[trigger] t0[j]).0 != domain@,
                found ==> i < n && t0[i as int].0 == domain@,
            decreases n - i + (if found { 0int } else { 1int }),
        {
            if self.cache[i].host == *domain {
                found = true;
            } else {
                i += 1;
            }
        }
        if found {
            proof {
                lemma_cache_find_unique(t0, domain@, i as int);
            }
            let inserted = self.cache[i].inserted_at;
            let live = if now_ms >= inserted {
                now_ms - inserted < CERT_TTL_MS
            } else {
                true
            };
            if live {
                let mut chain: Vec<Vec<u8>> = Vec::new();
                chain.push(clone_bytes(&self.cache[i].leaf_der));
                chain.push(clone_bytes(&self.root.cert_der));
                let key = clone_bytes(&self.cache[i].key_der);
                Some((chain, key))
            } else {
                None
            }
        } else {
            proof {
                lemma_cache_find_spec(t0, domain@);
                assert(cache_find(t0, domain@) == -1);
            }
            None
        }
    }

    /// Get-or-mint: a live cached leaf is returned as it stands; otherwise
    /// the given freshly signed material is recorded (stale entries replaced
    /// in place, the front entry evicted when the cache is full) and the
    /// chain `{leaf, root}` with the leaf key is returned.
    ///
    /// The signing itself happens outside the library: the caller owes a
    /// `material` whose leaf was signed by the root key from exactly
    /// `template_for(domain)`'s template, with `key_der` its private key.
    /// Nothing here can check that obligation against the DER bytes.
    pub fn get_or_create_cert(
        &mut self,
        domain: &String,
        now_ms: u64,
        material: LeafMaterial,
    ) -> (r: (Vec<Vec<u8>>, Vec<u8>))
        requires
            old(self).wf(),
        ensures
            final(self).wf(),
            final(self).root_view() == old(self).root_view(),
            final(self).cache_view() == spec_mint(
                old(self).cache_view(),
                domain@,
                now_ms as int,
                material.leaf_der@,
                material.key_der@,
            ),
            r.0@.len() == 2,
            (r.0@[0]@, r.1@) == spec_mint_leaf(
                old(self).cache_view(),
                domain@,
                now_ms as int,
                material.leaf_der@,
                material.key_der@,
            ),
            r.0@[1]@ == old(self).root_view().cert_der,
            cache_find(final(self).cache_view(), domain@) >= 0,
            final(self).cache_view()[cache_find(final(self).cache_view(), domain@)].1.leaf
                == r.0@[0]@,
            final(self).cache_view()[cache_find(final(self).cache_view(), domain@)].1.key
                == r.1@,
    {
        let ghost t0 = self.cache_view();
        let n = self.cache.len();
        let mut i: usize = 0;
        let mut found = false;
        while i < n && !found
            invariant
                n == self.cache@.len(),
                t0 == self.cache_view(),
                0 <= i <= n,
                forall|j: int| 0 <= j < i ==> (#[trigger] t0[j]).0 != domain@,
                found ==> i < n && t0[i as int].0 == domain@,
            decreases n - i + (if found { 0int } else { 1int }),
        {
            if self.cache[i].host == *domain {
                found = true;
            } else {
                i += 1;
            }
        }
        if found {
            proof {
                lemma_cache_find_unique(t0, domain@, i as int);
            }
            let inserted = self.cache[i].inserted_at;
            let live = if now_ms >= inserted {
                now_ms - inserted < CERT_TTL_MS
            } else {
                true
            };
            if live {
                let mut chain: Vec<Vec<u8>> = Vec::new();
                chain.push(clone_bytes(&self.cache[i].leaf_der));
                chain.push(clone_bytes(&self.root.cert_der));
                let key = clone_bytes(&self.cache[i].key_der);
                proof {
                    lemma_cache_find_unique(self.cache_view(), domain@, i as int);
                }
                (chain, key)
            } else {
                let host_key = self.cache[i].host.clone();
                let mut chain: Vec<Vec<u8>> = Vec::new();
                chain.push(clone_bytes(&material.leaf_der));
                chain.push(clone_bytes(&self.root.cert_der));
                let key = clone_bytes(&material.key_der);
                let entry = CacheEntry {
                    host: host_key,
                    leaf_der: material.leaf_der,
                    key_der: material.key_der,
                    inserted_at: now_ms,
                };
                self.cache[i] = entry;
                proof {
                    assert(self.cache_view() =~= spec_mint(
                        t0,
                        domain@,
                        now_ms as int,
                        material.leaf_der@,
                        material.key_der@,
                    ));
                    assert forall|j: int| 0 <= j < i implies (
                    #[trigger] self.cache_view()[j]).0 != domain@ by {
                        lemma_cache_find_before(t0, domain@, j);
                    }
                    lemma_cache_find_unique(self.cache_view(), domain@, i as int);
                }
                (chain, key)
            }
        } else {
            proof {
                lemma_cache_find_spec(t0, domain@);
                assert(cache_find(t0, domain@) == -1);
            }
            let mut chain: Vec<Vec<u8>> = Vec::new();
            chain.push(clone_bytes(&material.leaf_der));
            chain.push(clone_bytes(&self.root.cert_der));
            let key = clone_bytes(&material.key_der);
            if self.cache.len() >= CERT_CACHE_CAP {
                self.cache.remove(0);
                proof {
                    assert(self.cache_view() =~= t0.drop_first());
                }
            }
            let entry = CacheEntry {
                host: domain.clone(),
                leaf_der: material.leaf_der,
                key_der: material.key_der,
                inserted_at: now_ms,
            };
            self.cache.push(entry);
            proof {
                assert(self.cache_view() =~= spec_mint(
                    t0,
                    domain@,
                    now_ms as int,
                    material.leaf_der@,
                    material.key_der@,
                ));
                let tv = self.cache_view();
                assert forall|j: int| 0 <= j < tv.len() - 1 implies (#[trigger] tv[j]).0
                    != domain@ by {
                    if t0.len() >= CERT_CACHE_CAP {
                        assert(tv[j] == t0.drop_first()[j]);
                        assert(t0[j + 1].0 != domain@);
                    } else {
                        assert(tv[j] == t0[j]);
                    }
                }
                lemma_cache_find_unique(tv, domain@, tv.len() - 1);
            }
            (chain, key)
        }
    }
}

/// Freshly signed leaf material, as the signer hands it back: the leaf
/// certificate and its private key, both DER.
pub struct LeafMaterial {
    pub leaf_der: Vec<u8>,
    pub key_der: Vec<u8>,
}

// ---------------------------------------------------------------------------
// Laws
// ---------------------------------------------------------------------------

/// The law of mint deduplication: two mints for the same host at the same
/// time return byte-identical chains, whatever material the second call
/// brought — the cache has quiesced to a single visible leaf.
pub proof fn lemma_mint_deduplicates(
    t: Seq<(Seq<char>, LeafV)>,
    h: Seq<char>,
    now: int,
    l1: Seq<u8>,
    k1: Seq<u8>,
    l2: Seq<u8>,
    k2: Seq<u8>,
)
    ensures
        spec_mint_leaf(spec_mint(t, h, now, l1, k1), h, now, l2, k2) == spec_mint_leaf(
            t,
            h,
            now,
            l1,
            k1,
        ),
{
    let t1 = spec_mint(t, h, now, l1, k1);
    let i = cache_find(t, h);
    lemma_cache_find_spec(t, h);
    if i >= 0 && cache_live(t[i].1, now) {
    } else if i >= 0 {
        assert forall|j: int| 0 <= j < i implies (#[trigger] t1[j]).0 != h by {
            lemma_cache_find_before(t, h, j);
        }
        lemma_cache_find_unique(t1, h, i);
    } else if t.len() >= CERT_CACHE_CAP {
        assert forall|j: int| 0 <= j < t1.len() - 1 implies (#[trigger] t1[j]).0 != h by {
            assert(t1[j] == t.drop_first()[j]);
            assert(t[j + 1].0 != h);
        }
        lemma_cache_find_unique(t1, h, t1.len() - 1);
    } else {
        assert(forall|j: int| 0 <= j < t.len() ==> t1[j] == t[j]);
        lemma_cache_find_unique(t1, h, t.len() as int);
    }
}

/// The law of leaf chain well-formedness: the template a host's leaf is
/// signed from names the root's subject as its issuer, carries the host and
/// its wildcard sibling in the subject alternative names, asks for the
/// serverAuth extended key usage, and is no CA — an X.509 v3 certificate
/// over an RSA-4096 key, signed with SHA-256, its basic constraints not
/// critical.  The chain a mint returns pairs that leaf with the root
/// certificate itself.
pub proof fn lemma_leaf_chain_well_formed(host: Seq<char>, root_subject: CertNameV)
    ensures
        ({
            let t = spec_leaf_template(host, root_subject);
            &&& t.issuer == root_subject
            &&& t.subject.common_name == host
            &&& t.san.len() == 2
            &&& t.san[0] == host
            &&& t.san[1] == "*."@ + host
            &&& t.ext_key_usage.contains(ExtKeyUsageKind::ServerAuth)
            &&& !t.is_ca
            &&& !t.basic_constraints_critical
            &&& t.validity_days == 90
            &&& t.key_usage_critical
            &&& t.key_algorithm == KeyAlgorithm::Rsa
            &&& t.key_bits == 4096
            &&& t.signature_digest == SignatureDigest::Sha256
            &&& t.x509_version == 3
        }),
{
    let t = spec_leaf_template(host, root_subject);
    assert(t.ext_key_usage[0] == ExtKeyUsageKind::ServerAuth);
}

/// The law of root well-formedness: the root template is a self-signed
/// X.509 v3 CA — subject equal to issuer, basic constraints (CA: true)
/// critical, key usage {keyCertSign, cRLSign} critical, an RSA-4096 key
/// signed with SHA-256, a 159-bit serial and 90 days of validity, with the
/// subject key identifier last in the extension order.
pub proof fn lemma_root_template_well_formed()
    ensures
        ({
            let t = spec_root_template();
            &&& t.subject == t.issuer
            &&& t.is_ca
            &&& t.basic_constraints_critical
            &&& t.key_usage == seq![KeyUsageBit::KeyCertSign, KeyUsageBit::CrlSign]
            &&& t.key_usage_critical
            &&& t.key_algorithm == KeyAlgorithm::Rsa
            &&& t.key_bits == 4096
            &&& t.signature_digest == SignatureDigest::Sha256
            &&& t.x509_version == 3
            &&& t.serial_bits == 159
            &&& t.validity_days == 90
            &&& t.extension_order == seq![
                ExtensionKind::BasicConstraints,
                ExtensionKind::KeyUsage,
                ExtensionKind::SubjectKeyId,
            ]
        }),
{
}

} // verus!
