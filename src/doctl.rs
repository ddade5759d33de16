//! Droplets and the other records of the compute provider, the mapping from
//! the provider's listing records, and the provider commands that are built
//! from user input.
use vstd::prelude::*;
use crate::text::{strs_view, trim, trimmed, chars_of};

verus! {

#[derive(Debug, Clone)]
pub struct Droplet {
    pub id: u64,
    pub name: String,
    pub status: String,
    pub region: String,
    pub size: Option<String>,
    pub public_ipv4: Option<String>,
    pub private_ipv4: Option<String>,
    pub created_at: Option<String>,
    pub tags: Vec<String>,
}

impl Droplet {
    /// Whether the droplet is up.
    pub fn is_running(&self) -> (r: bool)
        ensures
            r == (self.status@ == "active"@),
    {
        let active = String::from_str("active");
        self.status == active
    }
}

#[derive(Debug, Clone)]
pub struct Region {
    pub slug: String,
    pub name: String,
    pub available: bool,
}

#[derive(Debug, Clone)]
pub struct Image {
    pub id: u64,
    pub name: String,
    pub slug: Option<String>,
    pub distribution: Option<String>,
}

#[derive(Debug, Clone)]
pub struct SshKey {
    pub id: u64,
    pub name: String,
    pub fingerprint: String,
}

/// The defaults offered in the tunnel and sync forms.
#[derive(Debug, Clone)]
pub struct Settings {
    pub default_ssh_user: String,
    pub default_ssh_key_path: String,
    pub default_ssh_port: u16,
}

/// What a new droplet is created from.
#[derive(Debug, Clone)]
pub struct CreateDropletArgs {
    pub name: String,
    pub region: Option<String>,
    pub size: String,
    pub image: String,
    pub ssh_keys: Vec<String>,
    pub tags: Vec<String>,
}

/// A droplet as the provider lists it.
#[derive(Debug, Clone)]
pub struct DropletApi {
    pub id: u64,
    pub name: String,
    pub status: String,
    pub region: RegionApi,
    pub size_slug: Option<String>,
    pub created_at: Option<String>,
    pub tags: Option<Vec<String>>,
    pub networks: Option<NetworksApi>,
}

#[derive(Debug, Clone)]
pub struct RegionApi {
    pub slug: String,
}

#[derive(Debug, Clone)]
pub struct NetworksApi {
    pub v4: Vec<NetworkV4>,
}

#[derive(Debug, Clone)]
pub struct NetworkV4 {
    pub ip_address: String,
    pub kind: String,
}

/// The address of the last network of kind `kind`.
pub open spec fn last_ip_of_kind(nets: Seq<NetworkV4>, kind: Seq<char>) -> Option<Seq<char>>
    decreases nets.len(),
{
    if nets.len() == 0 {
        None
    } else if nets.last().kind@ == kind {
        Some(nets.last().ip_address@)
    } else {
        last_ip_of_kind(nets.drop_last(), kind)
    }
}

pub open spec fn opt_str(o: Option<String>) -> Option<Seq<char>> {
    match o {
        Some(s) => Some(s@),
        None => None,
    }
}

/// A listed droplet as the front end keeps it: the public and private
/// addresses are those of the last network of each kind; no tags is an
/// empty list.
pub fn map_droplet(droplet: DropletApi) -> (r: Droplet)
    ensures
        r.id == droplet.id,
        r.name == droplet.name,
        r.status == droplet.status,
        r.region == droplet.region.slug,
        r.size == droplet.size_slug,
        r.created_at == droplet.created_at,
        r.tags@ == match droplet.tags {
            Some(t) => t@,
            None => Seq::empty(),
        },
        opt_str(r.public_ipv4) == match droplet.networks {
            Some(n) => last_ip_of_kind(n.v4@, "public"@),
            None => None,
        },
        opt_str(r.private_ipv4) == match droplet.networks {
            Some(n) => last_ip_of_kind(n.v4@, "private"@),
            None => None,
        },
{
    let mut public_ip: Option<String> = None;
    let mut private_ip: Option<String> = None;
    match &droplet.networks {
        Some(networks) => {
            let public_kind = String::from_str("public");
            let private_kind = String::from_str("private");
            let nets = &networks.v4;
            let mut i: usize = 0;
            while i < nets.len()
                invariant
                    i <= nets@.len(),
                    public_kind@ == "public"@,
                    private_kind@ == "private"@,
                    opt_str(public_ip) == last_ip_of_kind(nets@.take(i as int), "public"@),
                    opt_str(private_ip) == last_ip_of_kind(nets@.take(i as int), "private"@),
                decreases nets.len() - i,
            {
                proof {
                    assert(nets@.take(i + 1).drop_last() =~= nets@.take(i as int));
                    assert(nets@.take(i + 1).last() == nets@[i as int]);
                }
                let net = &nets[i];
                if net.kind == public_kind {
                    public_ip = Some(net.ip_address.clone());
                } else if net.kind == private_kind {
                    private_ip = Some(net.ip_address.clone());
                }
                proof {
                    reveal_strlit("public");
                    reveal_strlit("private");
                    assert("public"@ != "private"@) by {
                        assert("public"@.len() != "private"@.len());
                    }
                }
                i += 1;
            }
            proof {
                assert(nets@.take(nets@.len() as int) =~= nets@);
            }
        },
        None => {},
    }
    let tags = match droplet.tags {
        Some(t) => t,
        None => Vec::new(),
    };
    Droplet {
        id: droplet.id,
        name: droplet.name,
        status: droplet.status,
        region: droplet.region.slug,
        size: droplet.size_slug,
        public_ipv4: public_ip,
        private_ipv4: private_ip,
        created_at: droplet.created_at,
        tags,
    }
}

/// `parts` joined with `,` between them.
pub open spec fn joined(parts: Seq<Seq<char>>) -> Seq<char>
    decreases parts.len(),
{
    if parts.len() == 0 {
        Seq::empty()
    } else if parts.len() == 1 {
        parts[0]
    } else {
        joined(parts.drop_last()) + seq![','] + parts.last()
    }
}

fn join_commas(parts: &Vec<String>) -> (r: String)
    ensures
        r@ == joined(strs_view(parts@)),
{
    let ghost ps = strs_view(parts@);
    let mut r = String::new();
    let mut i: usize = 0;
    while i < parts.len()
        invariant
            i <= parts@.len(),
            ps == strs_view(parts@),
            r@ == joined(ps.take(i as int)),
        decreases parts.len() - i,
    {
        proof {
            assert(ps.take(i + 1).drop_last() =~= ps.take(i as int));
        }
        if i > 0 {
            r.append(",");
            proof {
                reveal_strlit(",");
            }
        }
        r.append(parts[i].as_str());
        assert(r@ =~= joined(ps.take(i + 1)));
        i += 1;
    }
    proof {
        assert(ps.take(ps.len() as int) =~= ps);
    }
    r
}

/// The provider arguments that create the droplet `args` describes: name,
/// size and image, then the region when one is given and not blank, the
/// SSH keys and the tags when there are any, each list joined with commas.
pub open spec fn create_command(args: CreateDropletArgs) -> Seq<Seq<char>> {
    let base = seq![
        "compute"@,
        "droplet"@,
        "create"@,
        args.name@,
        "--size"@,
        args.size@,
        "--image"@,
        args.image@,
        "--wait"@,
    ];
    let with_region = match args.region {
        Some(r) => if trim(r@).len() > 0 {
            base + seq!["--region"@, r@]
        } else {
            base
        },
        None => base,
    };
    let with_keys = if args.ssh_keys@.len() > 0 {
        with_region + seq!["--ssh-keys"@, joined(strs_view(args.ssh_keys@))]
    } else {
        with_region
    };
    if args.tags@.len() > 0 {
        with_keys + seq!["--tag-names"@, joined(strs_view(args.tags@))]
    } else {
        with_keys
    }
}

/// `create_command(args)`.
pub fn build_create_command(args: &CreateDropletArgs) -> (r: Vec<String>)
    ensures
        strs_view(r@) == create_command(*args),
{
    let mut cmd: Vec<String> = Vec::new();
    cmd.push(String::from_str("compute"));
    cmd.push(String::from_str("droplet"));
    cmd.push(String::from_str("create"));
    cmd.push(args.name.clone());
    cmd.push(String::from_str("--size"));
    cmd.push(args.size.clone());
    cmd.push(String::from_str("--image"));
    cmd.push(args.image.clone());
    cmd.push(String::from_str("--wait"));
    let ghost base = seq![
        "compute"@,
        "droplet"@,
        "create"@,
        args.name@,
        "--size"@,
        args.size@,
        "--image"@,
        args.image@,
        "--wait"@,
    ];
    assert(strs_view(cmd@) =~= base);
    match &args.region {
        Some(region) => {
            let rv = chars_of(region.as_str());
            if trimmed(&rv).len() > 0 {
                cmd.push(String::from_str("--region"));
                cmd.push(region.clone());
                assert(strs_view(cmd@) =~= base + seq!["--region"@, region@]);
            }
        },
        None => {},
    }
    let ghost with_region = strs_view(cmd@);
    if args.ssh_keys.len() > 0 {
        cmd.push(String::from_str("--ssh-keys"));
        cmd.push(join_commas(&args.ssh_keys));
        assert(strs_view(cmd@) =~= with_region + seq![
            "--ssh-keys"@,
            joined(strs_view(args.ssh_keys@)),
        ]);
    }
    let ghost with_keys = strs_view(cmd@);
    if args.tags.len() > 0 {
        cmd.push(String::from_str("--tag-names"));
        cmd.push(join_commas(&args.tags));
        assert(strs_view(cmd@) =~= with_keys + seq!["--tag-names"@, joined(strs_view(args.tags@))]);
    }
    cmd
}

/// The decimal digits of `n`.
pub fn u64_text(n: u64) -> (r: String)
    ensures
        r@ == crate::names::decimal(n as nat),
    decreases n,
{
    if n < 10 {
        let d = vec![digit_of(n)];
        assert(d@ =~= seq![crate::names::digit(n as nat)]);
        crate::text::string_of(&d)
    } else {
        let mut r = u64_text(n / 10);
        crate::text::push_char(&mut r, digit_of(n % 10));
        r
    }
}

fn digit_of(d: u64) -> (r: char)
    requires
        d < 10,
    ensures
        r == crate::names::digit(d as nat),
{
    if d == 0 { '0' }
    else if d == 1 { '1' }
    else if d == 2 { '2' }
    else if d == 3 { '3' }
    else if d == 4 { '4' }
    else if d == 5 { '5' }
    else if d == 6 { '6' }
    else if d == 7 { '7' }
    else if d == 8 { '8' }
    else { '9' }
}

/// The provider arguments that snapshot the droplet `droplet_id` under the
/// name `snapshot_name` and wait for it.
pub fn snapshot_droplet(droplet_id: u64, snapshot_name: &str) -> (r: Vec<String>)
    ensures
        strs_view(r@) == seq![
            "compute"@,
            "droplet-action"@,
            "snapshot"@,
            crate::names::decimal(droplet_id as nat),
            "--snapshot-name"@,
            snapshot_name@,
            "--wait"@,
        ],
{
    let mut cmd: Vec<String> = Vec::new();
    cmd.push(String::from_str("compute"));
    cmd.push(String::from_str("droplet-action"));
    cmd.push(String::from_str("snapshot"));
    cmd.push(u64_text(droplet_id));
    cmd.push(String::from_str("--snapshot-name"));
    cmd.push(String::from_str(snapshot_name));
    cmd.push(String::from_str("--wait"));
    assert(strs_view(cmd@) =~= seq![
        "compute"@,
        "droplet-action"@,
        "snapshot"@,
        crate::names::decimal(droplet_id as nat),
        "--snapshot-name"@,
        snapshot_name@,
        "--wait"@,
    ]);
    cmd
}

/// The regions offered when creating a droplet: slug, name, availability.
pub open spec fn region_table() -> Seq<(Seq<char>, Seq<char>, bool)> {
    seq![
        ("nyc1"@, "New York 1"@, true),
        ("sfo1"@, "San Francisco 1"@, false),
        ("nyc2"@, "New York 2"@, true),
        ("ams2"@, "Amsterdam 2"@, false),
        ("sgp1"@, "Singapore 1"@, true),
        ("lon1"@, "London 1"@, true),
        ("nyc3"@, "New York 3"@, true),
        ("ams3"@, "Amsterdam 3"@, true),
        ("fra1"@, "Frankfurt 1"@, true),
        ("tor1"@, "Toronto 1"@, true),
        ("sfo2"@, "San Francisco 2"@, true),
        ("blr1"@, "Bangalore 1"@, true),
        ("sfo3"@, "San Francisco 3"@, true),
        ("syd1"@, "Sydney 1"@, true),
        ("atl1"@, "Atlanta 1"@, true),
    ]
}

pub open spec fn regions_view(v: Seq<Region>) -> Seq<(Seq<char>, Seq<char>, bool)> {
    v.map_values(|r: Region| (r.slug@, r.name@, r.available))
}

fn region(slug: &str, name: &str, available: bool) -> (r: Region)
    ensures
        r.slug@ == slug@,
        r.name@ == name@,
        r.available == available,
{
    Region { slug: String::from_str(slug), name: String::from_str(name), available }
}

/// The fixed list of regions, `region_table()`.
pub fn list_regions() -> (r: Result<Vec<Region>, String>)
    ensures
        r matches Ok(v) && regions_view(v@) == region_table(),
{
    let mut v: Vec<Region> = Vec::new();
    v.push(region("nyc1", "New York 1", true));
    v.push(region("sfo1", "San Francisco 1", false));
    v.push(region("nyc2", "New York 2", true));
    v.push(region("ams2", "Amsterdam 2", false));
    v.push(region("sgp1", "Singapore 1", true));
    v.push(region("lon1", "London 1", true));
    v.push(region("nyc3", "New York 3", true));
    v.push(region("ams3", "Amsterdam 3", true));
    v.push(region("fra1", "Frankfurt 1", true));
    v.push(region("tor1", "Toronto 1", true));
    v.push(region("sfo2", "San Francisco 2", true));
    v.push(region("blr1", "Bangalore 1", true));
    v.push(region("sfo3", "San Francisco 3", true));
    v.push(region("syd1", "Sydney 1", true));
    v.push(region("atl1", "Atlanta 1", true));
    assert(regions_view(v@) =~= region_table());
    Ok(v)
}

} // verus!
