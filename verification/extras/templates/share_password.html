{% extends "base" %}
{% block content %}
<div class="flex items-center justify-center min-h-screen">
<div class="w-full max-w-sm mx-4 bg-card rounded-xl border border-border shadow-md p-6">
<div class="text-center mb-6">
<div class="inline-flex items-center justify-center w-12 h-12 rounded-full bg-amber-50 dark:bg-amber-900/20 text-amber-600 dark:text-amber-400 mb-3 border border-amber-100 dark:border-amber-800">
<svg class="w-6 h-6" fill="none" stroke="currentColor" viewBox="0 0 24 24">
<rect x="3" y="11" width="18" height="11" rx="2" stroke-width="2"/>
<path d="M7 11V7a5 5 0 0110 0v4" stroke-width="2"/>
</svg>
</div>
<h1 class="text-xl font-bold text-foreground">Protected Note</h1>
<p class="text-xs text-muted-fg mt-1">This note is password protected. Enter the password to view it.</p>
</div>
<form action="/share/{{ id }}" method="post" class="space-y-4">
<div>
<label for="password" class="block text-sm font-medium mb-1">Password</label>
<input type="password" name="password" id="password" required autofocus
class="w-full px-3 py-2 border border-border rounded-lg bg-card focus:outline-none focus:ring-2 focus:ring-accent-500">
</div>
{% if error %}
<p class="text-red-500 text-sm">{{ error }}</p>
{% endif %}
<button type="submit"
class="w-full py-2 px-4 bg-accent-600 text-white rounded-lg hover:bg-accent-700 focus:outline-none focus:ring-2 focus:ring-accent-500 text-sm font-medium">
Unlock Note
</button>
</form>
</div>
</div>
{% endblock %}